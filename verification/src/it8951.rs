//! The IT8951 e-ink controller's SPI host protocol: which packets each command
//! sends. A packet is one chip-select transaction: a preamble word telling the
//! controller what follows, then command or data words (big-endian on the wire).
//! The board driver performs the bus transfers and the ready/busy waits.
use vstd::prelude::*;

verus! {

/// Preamble of a command packet.
pub const PREAMBLE_WRITE_CMD: u16 = 0x6000;
/// Preamble of a data-write packet.
pub const PREAMBLE_WRITE_DATA: u16 = 0x0000;
/// Preamble of a data-read packet.
pub const PREAMBLE_READ_DATA: u16 = 0x1000;

pub const CMD_SYS_RUN: u16 = 0x0001;
pub const CMD_STANDBY: u16 = 0x0002;
pub const CMD_SLEEP: u16 = 0x0003;
pub const CMD_REG_RD: u16 = 0x0010;
pub const CMD_REG_WR: u16 = 0x0011;
pub const CMD_LD_IMG_AREA: u16 = 0x0021;
pub const CMD_LD_IMG_END: u16 = 0x0022;
pub const CMD_DPY_AREA: u16 = 0x0034;

/// Load-image target address registers (low and high halves).
pub const REG_LISAR_L: u16 = 0x0200 + 0x08;
pub const REG_LISAR_H: u16 = 0x0200 + 0x0A;
/// The display engine's busy register (0 once a refresh has finished).
pub const REG_LUTAFSR: u16 = 0x1000 + 0x224;

/// The load-image argument word: 4 bits per pixel (`0x02` in bits 4..6),
/// little-endian pixel order.
pub const LOAD_IMAGE_ARGS: u16 = 0x0000 | (0x02 << 4);

/// How many times the driver polls the ready line or the busy register before it
/// gives up waiting.
pub const POLL_LIMIT: u32 = 2_000_000;

/// One chip-select transaction with the controller.
#[derive(Clone, Copy)]
pub enum Packet<'a> {
    /// A command word.
    Command(u16),
    /// A short run of data words written to the controller: the first `n` of the
    /// five slots.
    Words([u16; 5], usize),
    /// Data words written to the controller straight from the caller's buffer.
    Stream(&'a [u16]),
    /// `n` data words read back (after one dummy word).
    Read(usize),
}

/// A packet as plain values.
pub enum PacketView {
    Command(u16),
    Data(Seq<u16>),
    Read(nat),
}

impl<'a> View for Packet<'a> {
    type V = PacketView;

    open spec fn view(&self) -> PacketView {
        match self {
            Packet::Command(c) => PacketView::Command(*c),
            Packet::Words(w, n) => PacketView::Data(w@.take(*n as int)),
            Packet::Stream(d) => PacketView::Data(d@),
            Packet::Read(n) => PacketView::Read(*n as nat),
        }
    }
}

/// The packets of a sequence, as plain values.
pub open spec fn packets_view<'a>(ps: Seq<Packet<'a>>) -> Seq<PacketView> {
    ps.map_values(|p: Packet| p@)
}

/// The preamble word that opens a packet.
pub open spec fn preamble_of(p: PacketView) -> u16 {
    match p {
        PacketView::Command(_) => PREAMBLE_WRITE_CMD,
        PacketView::Data(_) => PREAMBLE_WRITE_DATA,
        PacketView::Read(_) => PREAMBLE_READ_DATA,
    }
}

/// The preamble word that opens `p`.
pub fn preamble(p: &Packet) -> (w: u16)
    ensures
        w == preamble_of(p@),
{
    match p {
        Packet::Command(_) => PREAMBLE_WRITE_CMD,
        Packet::Words(..) => PREAMBLE_WRITE_DATA,
        Packet::Stream(_) => PREAMBLE_WRITE_DATA,
        Packet::Read(_) => PREAMBLE_READ_DATA,
    }
}

/// A word as it goes on the wire: high byte first.
pub fn be_bytes(w: u16) -> (b: [u8; 2])
    ensures
        b@ == seq![(w / 256) as u8, (w % 256) as u8],
{
    let hi: u8 = (w >> 8u16) as u8;
    let lo: u8 = (w & 0xFFu16) as u8;
    assert(hi == w / 256 && lo == w % 256) by (bit_vector)
        requires
            hi == (w >> 8u16) as u8,
            lo == (w & 0xFFu16) as u8;
    let b = [hi, lo];
    assert(b@ =~= seq![(w / 256) as u8, (w % 256) as u8]);
    b
}

/// A word read off the wire: high byte first.
pub fn from_be_bytes(b: [u8; 2]) -> (w: u16)
    ensures
        w == b@[0] * 256 + b@[1],
{
    let hi = b[0];
    let lo = b[1];
    let w: u16 = ((hi as u16) << 8u16) | (lo as u16);
    assert(w == hi * 256 + lo) by (bit_vector)
        requires
            w == ((hi as u16) << 8u16) | (lo as u16);
    w
}

/// A data packet of the words `ws` (at most five).
fn words<'a>(ws: [u16; 5], n: usize) -> (p: Packet<'a>)
    requires
        n <= 5,
    ensures
        p@ == PacketView::Data(ws@.take(n as int)),
{
    Packet::Words(ws, n)
}

/// The packets that write `val` into register `reg`.
pub open spec fn write_register_spec(reg: u16, val: u16) -> Seq<PacketView> {
    seq![PacketView::Command(CMD_REG_WR), PacketView::Data(seq![reg, val])]
}

/// The packets that write `val` into register `reg`.
pub fn write_register_packets<'a>(reg: u16, val: u16) -> (ps: [Packet<'a>; 2])
    ensures
        packets_view(ps@) == write_register_spec(reg, val),
{
    let d = words([reg, val, 0, 0, 0], 2);
    let ps = [Packet::Command(CMD_REG_WR), d];
    assert(seq![reg, val, 0u16, 0u16, 0u16].take(2) =~= seq![reg, val]);
    assert(packets_view(ps@) =~= write_register_spec(reg, val));
    ps
}

/// The packets that read register `reg`: the command, the register number, then
/// one word back.
pub fn read_register_packets<'a>(reg: u16) -> (ps: [Packet<'a>; 3])
    ensures
        packets_view(ps@) == seq![
            PacketView::Command(CMD_REG_RD),
            PacketView::Data(seq![reg]),
            PacketView::Read(1),
        ],
{
    let d = words([reg, 0, 0, 0, 0], 1);
    let ps = [Packet::Command(CMD_REG_RD), d, Packet::Read(1)];
    assert(seq![reg, 0u16, 0u16, 0u16, 0u16].take(1) =~= seq![reg]);
    assert(packets_view(ps@) =~= seq![
        PacketView::Command(CMD_REG_RD),
        PacketView::Data(seq![reg]),
        PacketView::Read(1),
    ]);
    ps
}

/// The packets that point image loads at controller memory address `addr`: the
/// high half into `LISAR_H`, then the low half into `LISAR_L`.
pub open spec fn target_memory_spec(addr: u32) -> Seq<PacketView> {
    write_register_spec(REG_LISAR_H, (addr / 0x1_0000) as u16) + write_register_spec(REG_LISAR_L, (addr % 0x1_0000) as u16)
}

/// The packets that point image loads at controller memory address `addr`.
pub fn set_target_memory_packets<'a>(addr: u32) -> (ps: [Packet<'a>; 4])
    ensures
        packets_view(ps@) == target_memory_spec(addr),
{
    let hi: u16 = (addr >> 16u32) as u16;
    let lo: u16 = (addr & 0xFFFFu32) as u16;
    assert(hi == addr / 0x1_0000 && lo == addr % 0x1_0000) by (bit_vector)
        requires
            hi == (addr >> 16u32) as u16,
            lo == (addr & 0xFFFFu32) as u16;
    let a = write_register_packets(REG_LISAR_H, hi);
    let b = write_register_packets(REG_LISAR_L, lo);
    let ps = [a[0], a[1], b[0], b[1]];
    assert(packets_view(ps@) =~= target_memory_spec(addr));
    ps
}

/// The packets that load the packed pixel words of the `w x h` area at `(x, y)`
/// into controller memory at `addr`: set the target, start the load with the
/// 4-bit-per-pixel argument and the area, stream the words, end the load.
pub open spec fn load_image_area_spec(addr: u32, x: u16, y: u16, w: u16, h: u16, packed: Seq<u16>) -> Seq<PacketView> {
    target_memory_spec(addr) + seq![
        PacketView::Command(CMD_LD_IMG_AREA),
        PacketView::Data(seq![LOAD_IMAGE_ARGS, x, y, w, h]),
        PacketView::Data(packed),
        PacketView::Command(CMD_LD_IMG_END),
    ]
}

/// The packets of an image-area load; the pixel words are streamed from `packed`
/// itself, not copied.
pub fn load_image_area_packets<'a>(addr: u32, x: u16, y: u16, w: u16, h: u16, packed: &'a [u16]) -> (ps: [Packet<'a>; 8])
    ensures
        packets_view(ps@) == load_image_area_spec(addr, x, y, w, h, packed@),
{
    let t = set_target_memory_packets(addr);
    let args = words([LOAD_IMAGE_ARGS, x, y, w, h], 5);
    let ps = [t[0], t[1], t[2], t[3], Packet::Command(CMD_LD_IMG_AREA), args, Packet::Stream(packed), Packet::Command(CMD_LD_IMG_END)];
    assert(seq![LOAD_IMAGE_ARGS, x, y, w, h].take(5) =~= seq![LOAD_IMAGE_ARGS, x, y, w, h]);
    assert(packets_view(ps@) =~= load_image_area_spec(addr, x, y, w, h, packed@));
    ps
}

/// The packets that refresh the `w x h` area at `(x, y)` with waveform `mode`
/// (sent once the display engine is idle).
pub fn display_area_packets<'a>(x: u16, y: u16, w: u16, h: u16, mode: u16) -> (ps: [Packet<'a>; 2])
    ensures
        packets_view(ps@) == seq![PacketView::Command(CMD_DPY_AREA), PacketView::Data(seq![x, y, w, h, mode])],
{
    let d = words([x, y, w, h, mode], 5);
    let ps = [Packet::Command(CMD_DPY_AREA), d];
    assert(seq![x, y, w, h, mode].take(5) =~= seq![x, y, w, h, mode]);
    assert(packets_view(ps@) =~= seq![PacketView::Command(CMD_DPY_AREA), PacketView::Data(seq![x, y, w, h, mode])]);
    ps
}

/// The single-command packets: run (after reset and on wake), standby, sleep.
pub fn command_packet<'a>(cmd: u16) -> (ps: [Packet<'a>; 1])
    ensures
        packets_view(ps@) == seq![PacketView::Command(cmd)],
{
    let ps = [Packet::Command(cmd)];
    assert(packets_view(ps@) =~= seq![PacketView::Command(cmd)]);
    ps
}

} // verus!
