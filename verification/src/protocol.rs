//! Frame and color types for the QuadCast 2S LED protocol, and the encoding
//! of a frame into the USB packets the device expects.

use vstd::prelude::*;

verus! {

/// RGB color: red, green, blue.
pub type Color = (u8, u8, u8);

/// Number of upper ring LEDs.
pub const UPPER_COUNT: usize = 54;
/// Number of lower ring LEDs.
pub const LOWER_COUNT: usize = 54;
/// Total LED count.
pub const TOTAL_LEDS: usize = UPPER_COUNT + LOWER_COUNT;

/// Size in bytes of every USB packet.
pub const PKT_SIZE: usize = 64;
/// LEDs carried by one data packet.
pub const LEDS_PER_PKT: usize = 20;
/// Data packets that follow the header packet.
pub const NUM_DATA_PKTS: usize = 6;

/// Command byte of the header packet.
pub const HEADER_CMD: u8 = 0x44;
/// Sub-command byte of the header packet.
pub const HEADER_SUB: u8 = 0x01;
/// Command byte of a data packet.
pub const DATA_CMD: u8 = 0x44;
/// Sub-command byte of a data packet.
pub const DATA_SUB: u8 = 0x02;
/// Number of data packets, as announced by the header packet.
pub const PKT_COUNT_CODE: u8 = 0x06;

/// One animation frame with separate upper and lower LED arrays.
#[derive(Debug, Clone)]
pub struct Frame {
    pub upper: Vec<Color>,
    pub lower: Vec<Color>,
}

/// The sequence of `n` copies of `c`.
pub open spec fn repeat(c: Color, n: nat) -> Seq<Color> {
    Seq::new(n, |_i: int| c)
}

/// Byte `ch` (0 = red, 1 = green, 2 = blue) of a color.
pub open spec fn channel(c: Color, ch: int) -> u8 {
    if ch == 0 {
        c.0
    } else if ch == 1 {
        c.1
    } else {
        c.2
    }
}

/// The header packet: `44 01 06 00` followed by zeros.
pub open spec fn header_packet() -> Seq<u8> {
    Seq::new(
        PKT_SIZE as nat,
        |j: int|
            if j == 0 {
                HEADER_CMD
            } else if j == 1 {
                HEADER_SUB
            } else if j == 2 {
                PKT_COUNT_CODE
            } else {
                0u8
            },
    )
}

/// Data packet number `p` (0-based) for the LEDs `leds` (upper ring first):
/// `44 02 p 00`, then the red, green and blue bytes of LEDs `20 p .. 20 p + 19`,
/// zero where the frame has no LED left.
pub open spec fn data_packet(leds: Seq<Color>, p: int) -> Seq<u8> {
    Seq::new(
        PKT_SIZE as nat,
        |j: int|
            if j == 0 {
                DATA_CMD
            } else if j == 1 {
                DATA_SUB
            } else if j == 2 {
                p as u8
            } else if j == 3 {
                0u8
            } else {
                let led = p * LEDS_PER_PKT + (j - 4) / 3;
                if led < TOTAL_LEDS {
                    channel(leds[led], (j - 4) % 3)
                } else {
                    0u8
                }
            },
    )
}

impl Frame {
    /// All LEDs, upper ring first.
    pub open spec fn leds(&self) -> Seq<Color> {
        self.upper@ + self.lower@
    }

    /// The frame has exactly one color per LED of each ring.
    pub open spec fn is_complete(&self) -> bool {
        self.upper@.len() == UPPER_COUNT && self.lower@.len() == LOWER_COUNT
    }

    /// A frame with every LED of both rings set to `color`.
    pub fn uniform(color: Color) -> (f: Frame)
        ensures
            f.upper@ == repeat(color, UPPER_COUNT as nat),
            f.lower@ == repeat(color, LOWER_COUNT as nat),
    {
        Frame { upper: vec_of(color, UPPER_COUNT), lower: vec_of(color, LOWER_COUNT) }
    }

    /// All LEDs as one vector (upper ring first, then lower ring).
    pub fn flat(&self) -> (out: Vec<Color>)
        ensures
            out@ == self.leds(),
    {
        let mut out: Vec<Color> = Vec::new();
        let mut i: usize = 0;
        while i < self.upper.len()
            invariant
                i <= self.upper@.len(),
                out@ == self.upper@.subrange(0, i as int),
            decreases self.upper@.len() - i,
        {
            out.push(self.upper[i]);
            i = i + 1;
        }
        let mut j: usize = 0;
        while j < self.lower.len()
            invariant
                j <= self.lower@.len(),
                out@ == self.upper@ + self.lower@.subrange(0, j as int),
            decreases self.lower@.len() - j,
        {
            out.push(self.lower[j]);
            j = j + 1;
        }
        out
    }

    /// The raw USB packets for this frame: one header packet and six data
    /// packets of twenty LEDs each.
    pub fn to_packets(&self) -> (packets: Vec<[u8; 64]>)
        requires
            self.leds().len() >= TOTAL_LEDS,
        ensures
            packets@.len() == 1 + NUM_DATA_PKTS,
            packets@[0]@ == header_packet(),
            forall|p: int|
                0 <= p < NUM_DATA_PKTS ==> #[trigger] packets@[p + 1]@ == data_packet(
                    self.leds(),
                    p,
                ),
    {
        let leds = self.flat();
        let mut packets: Vec<[u8; 64]> = Vec::new();
        let mut header = [0u8; 64];
        header[0] = HEADER_CMD;
        header[1] = HEADER_SUB;
        header[2] = PKT_COUNT_CODE;
        assert(header@ =~= header_packet());
        packets.push(header);
        let mut pkt_num: usize = 0;
        while pkt_num < NUM_DATA_PKTS
            invariant
                pkt_num <= NUM_DATA_PKTS,
                leds@ == self.leds(),
                leds@.len() >= TOTAL_LEDS,
                packets@.len() == 1 + pkt_num,
                packets@[0]@ == header_packet(),
                forall|p: int|
                    0 <= p < pkt_num ==> #[trigger] packets@[p + 1]@ == data_packet(leds@, p),
            decreases NUM_DATA_PKTS - pkt_num,
        {
            let data = data_packet_bytes(&leds, pkt_num);
            packets.push(data);
            pkt_num = pkt_num + 1;
        }
        packets
    }
}

/// Data packet `pkt_num` for `leds`.
fn data_packet_bytes(leds: &Vec<Color>, pkt_num: usize) -> (data: [u8; 64])
    requires
        leds@.len() >= TOTAL_LEDS,
        pkt_num < NUM_DATA_PKTS,
    ensures
        data@ == data_packet(leds@, pkt_num as int),
{
    let mut data = [0u8; 64];
    data[0] = DATA_CMD;
    data[1] = DATA_SUB;
    data[2] = pkt_num as u8;
    let mut k: usize = 0;
    while k < LEDS_PER_PKT
        invariant
            k <= LEDS_PER_PKT,
            pkt_num < NUM_DATA_PKTS,
            leds@.len() >= TOTAL_LEDS,
            forall|j: int|
                0 <= j < 4 + 3 * k ==> #[trigger] data@[j] == data_packet(
                    leds@,
                    pkt_num as int,
                )[j],
            forall|j: int| 4 + 3 * k <= j < PKT_SIZE ==> #[trigger] data@[j] == 0u8,
        decreases LEDS_PER_PKT - k,
    {
        let led_idx = pkt_num * LEDS_PER_PKT + k;
        let offset = 4 + 3 * k;
        if led_idx < TOTAL_LEDS {
            let (r, g, b) = leds[led_idx];
            data[offset] = r;
            data[offset + 1] = g;
            data[offset + 2] = b;
        }
        proof {
            assert forall|j: int| 0 <= j < 4 + 3 * (k + 1) implies #[trigger] data@[j]
                == data_packet(leds@, pkt_num as int)[j] by {
                if j >= 4 + 3 * k {
                    assert((j - 4) / 3 == k as int);
                }
            }
        }
        k = k + 1;
    }
    assert(data@ =~= data_packet(leds@, pkt_num as int));
    data
}

/// A vector of `n` copies of `c`.
pub fn vec_of(c: Color, n: usize) -> (v: Vec<Color>)
    ensures
        v@ == repeat(c, n as nat),
{
    let mut v: Vec<Color> = Vec::new();
    let mut i: usize = 0;
    while i < n
        invariant
            i <= n,
            v@ == repeat(c, i as nat),
        decreases n - i,
    {
        v.push(c);
        i = i + 1;
        assert(v@ =~= repeat(c, i as nat));
    }
    v
}

/// LED `k` (upper ring first) travels in data packet `k / 20`, its red,
/// green and blue bytes at offsets `4 + 3 (k % 20)`, `+ 1` and `+ 2`.
pub proof fn lemma_led_placement(leds: Seq<Color>, k: int)
    requires
        0 <= k < TOTAL_LEDS,
    ensures
        0 <= k / 20 < NUM_DATA_PKTS,
        data_packet(leds, k / 20)[4 + 3 * (k % 20)] == leds[k].0,
        data_packet(leds, k / 20)[4 + 3 * (k % 20) + 1] == leds[k].1,
        data_packet(leds, k / 20)[4 + 3 * (k % 20) + 2] == leds[k].2,
{
    let p = k / 20;
    let r = k % 20;
    assert(k == p * 20 + r && 0 <= r < 20 && 0 <= p < 6) by (nonlinear_arith)
        requires
            0 <= k < 108,
            p == k / 20,
            r == k % 20,
    ;
    assert((3 * r + 0) / 3 == r && (3 * r + 0) % 3 == 0 && (3 * r + 1) / 3 == r && (3 * r + 1) % 3
        == 1 && (3 * r + 2) / 3 == r && (3 * r + 2) % 3 == 2) by (nonlinear_arith)
        requires
            0 <= r,
    ;
}

/// The packet layout: the header packet is `44 01 06` followed by zeros;
/// data packet `p` starts `44 02 p 00`, carries the colors of LEDs
/// `20 p .. 20 p + 19` from byte 4 on, and is zero past the last LED.
pub proof fn lemma_packet_layout(leds: Seq<Color>)
    ensures
        header_packet().len() == 64,
        header_packet()[0] == 0x44u8,
        header_packet()[1] == 0x01u8,
        header_packet()[2] == 0x06u8,
        forall|j: int| 3 <= j < 64 ==> #[trigger] header_packet()[j] == 0u8,
        forall|p: int| 0 <= p < 6 ==> (#[trigger] data_packet(leds, p)).len() == 64,
        forall|p: int| 0 <= p < 6 ==> (#[trigger] data_packet(leds, p))[0] == 0x44u8,
        forall|p: int| 0 <= p < 6 ==> (#[trigger] data_packet(leds, p))[1] == 0x02u8,
        forall|p: int| 0 <= p < 6 ==> (#[trigger] data_packet(leds, p))[2] == p,
        forall|p: int| 0 <= p < 6 ==> (#[trigger] data_packet(leds, p))[3] == 0u8,
        forall|p: int, i: int, ch: int|
            0 <= p < 6 && 0 <= i < 20 && 0 <= ch < 3 && 20 * p + i < 108 ==> #[trigger] data_packet(
                leds,
                p,
            )[4 + 3 * i + ch] == channel(leds[20 * p + i], ch),
        forall|j: int| 28 <= j < 64 ==> #[trigger] data_packet(leds, 5)[j] == 0u8,
{
    assert forall|p: int, i: int, ch: int|
        0 <= p < 6 && 0 <= i < 20 && 0 <= ch < 3 && 20 * p + i < 108 implies #[trigger] data_packet(
        leds,
        p,
    )[4 + 3 * i + ch] == channel(leds[20 * p + i], ch) by {
        assert((3 * i + ch) / 3 == i && (3 * i + ch) % 3 == ch) by (nonlinear_arith)
            requires
                0 <= i,
                0 <= ch < 3,
        ;
        assert(4 + 3 * i + ch - 4 == 3 * i + ch);
    }
    assert forall|j: int| 28 <= j < 64 implies #[trigger] data_packet(leds, 5)[j] == 0u8 by {
        assert((j - 4) / 3 >= 8);
    }
}

} // verus!
