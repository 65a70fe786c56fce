//! The display device: a 128 x 64 pixel screen in 8 pages of 8-pixel-high
//! columns, driven through three output ports.
use vstd::prelude::*;
use crate::cpu::Port;
use vstd::arithmetic::div_mod::lemma_basic_div;
use vstd::arithmetic::power2::{lemma2_to64, lemma_pow2_strictly_increases, pow2};
use vstd::bits::lemma_u8_shr_is_div;

verus! {

/// Port that sets the horizontal drawing position (taken modulo 128).
pub const X_PORT: usize = 0x10;

/// Port that sets the vertical page (taken modulo 8).
pub const PAGE_PORT: usize = 0x11;

/// Port whose byte is drawn at the current position, which then advances.
pub const DATA_PORT: usize = 0x12;

/// 8 pages of 128 columns; bit `b` of a byte is pixel row `8 * page + b`.
pub type Framebuffer = [[u8; 128]; 8];

/// The display's video memory and drawing position.
pub struct NupuDisplay {
    pub vram: Framebuffer,
    pub x_ptr: u8,
    pub page_ptr: u8,
}

/// The mathematical state of a display.
pub struct Screen {
    /// `vram[page][x]`.
    pub vram: Seq<Seq<u8>>,
    pub x_ptr: u8,
    pub page_ptr: u8,
}

impl View for NupuDisplay {
    type V = Screen;

    open spec fn view(&self) -> Screen {
        Screen {
            vram: self.vram@.map_values(|row: [u8; 128]| row@),
            x_ptr: self.x_ptr,
            page_ptr: self.page_ptr,
        }
    }
}

impl Screen {
    /// The drawing position lies on the screen.
    pub open spec fn wf(self) -> bool {
        self.x_ptr < 128 && self.page_ptr < 8
    }

    /// A blank screen with the drawing position at the top left.
    pub open spec fn blank() -> Screen {
        Screen { vram: Seq::new(8, |p: int| Seq::new(128, |x: int| 0u8)), x_ptr: 0, page_ptr: 0 }
    }

    /// The drawing position after the position and page ports are read.
    pub open spec fn position_after_reads(self, ports: Seq<Port>) -> (u8, u8) {
        (
            if ports[X_PORT as int].dirty {
                ports[X_PORT as int].data % 128
            } else {
                self.x_ptr
            },
            if ports[PAGE_PORT as int].dirty {
                ports[PAGE_PORT as int].data % 8
            } else {
                self.page_ptr
            },
        )
    }

    /// Whether an update stays on the screen: a byte is drawn only at a
    /// position that lies on it.
    pub open spec fn draws_on_screen(self, ports: Seq<Port>) -> bool {
        ports[DATA_PORT as int].dirty ==> self.position_after_reads(ports).0 < 128
            && self.position_after_reads(ports).1 < 8
    }

    /// The screen and ports after the display has taken the dirty bytes of
    /// its three ports, in the order position, page, data.
    pub open spec fn updated(self, ports: Seq<Port>) -> (Screen, Seq<Port>) {
        let (s1, p1) = if ports[X_PORT as int].dirty {
            (
                Screen { x_ptr: ports[X_PORT as int].data % 128, ..self },
                ports.update(X_PORT as int, Port { dirty: false, ..ports[X_PORT as int] }),
            )
        } else {
            (self, ports)
        };
        let (s2, p2) = if p1[PAGE_PORT as int].dirty {
            (
                Screen { page_ptr: p1[PAGE_PORT as int].data % 8, ..s1 },
                p1.update(PAGE_PORT as int, Port { dirty: false, ..p1[PAGE_PORT as int] }),
            )
        } else {
            (s1, p1)
        };
        if p2[DATA_PORT as int].dirty {
            (
                Screen {
                    vram: s2.vram.update(
                        s2.page_ptr as int,
                        s2.vram[s2.page_ptr as int].update(
                            s2.x_ptr as int,
                            p2[DATA_PORT as int].data,
                        ),
                    ),
                    x_ptr: if s2.x_ptr < 127 {
                        (s2.x_ptr + 1) as u8
                    } else {
                        0
                    },
                    ..s2
                },
                p2.update(DATA_PORT as int, Port { dirty: false, ..p2[DATA_PORT as int] }),
            )
        } else {
            (s2, p2)
        }
    }
}

impl NupuDisplay {
    /// A blank display.
    pub fn new() -> (d: Self)
        ensures
            d@ == Screen::blank(),
            d@.wf(),
    {
        let d = NupuDisplay { vram: [[0u8; 128]; 8], x_ptr: 0, page_ptr: 0 };
        assert(d@.vram =~= Screen::blank().vram) by {
            assert forall|p: int| 0 <= p < 8 implies d@.vram[p] =~= Screen::blank().vram[p] by {
                assert(d.vram@[p]@ =~= Seq::new(128, |x: int| 0u8));
            }
        }
        d
    }

    /// Takes the dirty bytes of the position, page and data ports (in that
    /// order), clears their dirty marks, and draws.
    pub fn update(&mut self, cpu_ports: &mut [Port; 256])
        requires
            old(self)@.draws_on_screen(old(cpu_ports)@),
        ensures
            (final(self)@, final(cpu_ports)@) == old(self)@.updated(old(cpu_ports)@),
            old(self)@.wf() ==> final(self)@.wf(),
    {
        if cpu_ports[X_PORT].dirty {
            self.x_ptr = cpu_ports[X_PORT].data % 128;
            cpu_ports[X_PORT].dirty = false;
        }
        if cpu_ports[PAGE_PORT].dirty {
            self.page_ptr = cpu_ports[PAGE_PORT].data % 8;
            cpu_ports[PAGE_PORT].dirty = false;
        }
        if cpu_ports[DATA_PORT].dirty {
            let page = self.page_ptr as usize;
            let mut row = self.vram[page];
            row[self.x_ptr as usize] = cpu_ports[DATA_PORT].data;
            self.vram[page] = row;
            if self.x_ptr < 127 {
                self.x_ptr += 1;
            } else {
                self.x_ptr = 0;
            }
            cpu_ports[DATA_PORT].dirty = false;
        }
        proof {
            let expected = old(self)@.updated(old(cpu_ports)@);
            assert(self@.vram =~= expected.0.vram);
            assert(cpu_ports@ =~= expected.1);
        }
    }
}

/// Whether the pixel in column `x` and row `row` (0 at the top) is lit: bit
/// `row % 8` of the byte in page `row / 8`, column `x`.
pub open spec fn pixel_lit(vram: Seq<Seq<u8>>, x: int, row: int) -> bool {
    (vram[row / 8][x] >> ((row % 8) as u8)) & 1u8 == 1u8
}

/// Whether the pixel in column `x` and row `row` is lit (see `pixel_lit`).
pub fn is_lit(frame_buffer: &Framebuffer, x: usize, row: usize) -> (b: bool)
    requires
        x < 128,
        row < 64,
    ensures
        b == pixel_lit(frame_buffer@.map_values(|r: [u8; 128]| r@), x as int, row as int),
{
    let byte = frame_buffer[row / 8][x];
    let bit = (row % 8) as u8;
    (byte >> bit) & 1 == 1
}

/// Drawing replaces a byte: after an update with the data port dirty, the
/// byte at the drawing position (the column and page that the position and
/// page ports set, modulo 128 and 8, where they are dirty, and the old ones
/// where not) is the data port's byte, whatever that byte held before. Every
/// other byte of video memory is unchanged, the column advances by one
/// (from 127 back to 0), the page stays, and the three ports are no longer
/// dirty.
pub proof fn lemma_draw_replaces_byte(s: Screen, ports: Seq<Port>)
    requires
        s.wf(),
        s.vram.len() == 8,
        forall|p: int| 0 <= p < 8 ==> #[trigger] s.vram[p].len() == 128,
        ports.len() == 256,
        ports[DATA_PORT as int].dirty,
    ensures
        ({
            let x: int = if ports[X_PORT as int].dirty {
                ports[X_PORT as int].data as int % 128
            } else {
                s.x_ptr as int
            };
            let page: int = if ports[PAGE_PORT as int].dirty {
                ports[PAGE_PORT as int].data as int % 8
            } else {
                s.page_ptr as int
            };
            let (after, ports_after) = s.updated(ports);
            &&& after.vram.len() == 8
            &&& after.vram[page].len() == 128
            &&& after.vram[page][x] == ports[DATA_PORT as int].data
            &&& forall|q: int, c: int|
                0 <= q < 8 && 0 <= c < 128 && !(q == page && c == x) ==> #[trigger] after.vram[q][c]
                    == s.vram[q][c]
            &&& after.x_ptr == (x + 1) % 128
            &&& after.page_ptr == page
            &&& !ports_after[X_PORT as int].dirty
            &&& !ports_after[PAGE_PORT as int].dirty
            &&& !ports_after[DATA_PORT as int].dirty
            &&& ports_after[DATA_PORT as int].data == ports[DATA_PORT as int].data
        }),
{
}

/// Without a dirty data port an update draws nothing: video memory is
/// unchanged.
pub proof fn lemma_no_data_no_drawing(s: Screen, ports: Seq<Port>)
    requires
        ports.len() == 256,
        !ports[DATA_PORT as int].dirty,
    ensures
        s.updated(ports).0.vram == s.vram,
{
}

/// A pixel is lit exactly when bit `row % 8` of the byte of page `row / 8`
/// in its column is set: when that byte divided by 2 to the power `row % 8`
/// is odd.
pub proof fn lemma_pixel_is_bit_of_byte(vram: Seq<Seq<u8>>, x: int, row: int)
    requires
        0 <= row < 64,
    ensures
        pixel_lit(vram, x, row) == ((vram[row / 8][x] as int / pow2((row % 8) as nat) as int) % 2
            == 1),
{
    let v = vram[row / 8][x];
    let k = (row % 8) as u8;
    lemma_u8_shr_is_div(v, k);
    let w = v >> k;
    assert((w & 1u8 == 1u8) == (w % 2 == 1)) by (bit_vector);
}

/// The low bit of a byte is the top row of its page: a byte of 1 in column
/// `x` of page `page` lights row `8 * page` and none of the seven rows below.
pub proof fn lemma_low_bit_is_top_row(vram: Seq<Seq<u8>>, x: int, page: int)
    requires
        0 <= page < 8,
        vram[page][x] == 1,
    ensures
        pixel_lit(vram, x, 8 * page),
        forall|b: int| 1 <= b < 8 ==> !#[trigger] pixel_lit(vram, x, 8 * page + b),
{
    lemma2_to64();
    lemma_pixel_is_bit_of_byte(vram, x, 8 * page);
    assert((8 * page) / 8 == page && (8 * page) % 8 == 0);
    assert(vram[page][x] as int / pow2(0) as int == 1);
    assert forall|b: int| 1 <= b < 8 implies !#[trigger] pixel_lit(vram, x, 8 * page + b) by {
        lemma_pixel_is_bit_of_byte(vram, x, 8 * page + b);
        assert((8 * page + b) / 8 == page && (8 * page + b) % 8 == b);
        lemma_pow2_strictly_increases(0, b as nat);
        lemma_basic_div(1, pow2(b as nat) as int);
    }
}

/// What is drawn is what is seen: after an update draws the data port's byte
/// at column `x` of page `page`, the pixel in column `x` and row
/// `8 * page + b` (for `b < 8`) is lit exactly when bit `b` of that byte is
/// set.
pub proof fn lemma_drawn_byte_is_seen(s: Screen, ports: Seq<Port>, b: int)
    requires
        s.wf(),
        s.vram.len() == 8,
        forall|p: int| 0 <= p < 8 ==> #[trigger] s.vram[p].len() == 128,
        ports.len() == 256,
        ports[DATA_PORT as int].dirty,
        0 <= b < 8,
    ensures
        ({
            let x: int = if ports[X_PORT as int].dirty {
                ports[X_PORT as int].data as int % 128
            } else {
                s.x_ptr as int
            };
            let page: int = if ports[PAGE_PORT as int].dirty {
                ports[PAGE_PORT as int].data as int % 8
            } else {
                s.page_ptr as int
            };
            pixel_lit(s.updated(ports).0.vram, x, 8 * page + b) == ((ports[DATA_PORT as int].data as int
                / pow2(b as nat) as int) % 2 == 1)
        }),
{
    let x: int = if ports[X_PORT as int].dirty {
        ports[X_PORT as int].data as int % 128
    } else {
        s.x_ptr as int
    };
    let page: int = if ports[PAGE_PORT as int].dirty {
        ports[PAGE_PORT as int].data as int % 8
    } else {
        s.page_ptr as int
    };
    lemma_draw_replaces_byte(s, ports);
    lemma_pixel_is_bit_of_byte(s.updated(ports).0.vram, x, 8 * page + b);
    assert((8 * page + b) / 8 == page && (8 * page + b) % 8 == b);
}

} // verus!
