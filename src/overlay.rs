use vstd::prelude::*;
use vstd::arithmetic::div_mod::{
    lemma_div_pos_is_pos, lemma_fundamental_div_mod, lemma_multiply_divide_lt,
};

verus! {

/// Largest sum of column and row distance from the pointer that the
/// diamond-shaped glyph covers.
pub const GLYPH_RADIUS: usize = 8;

/// Shape of one frame of the pixel buffer, stored row by row.
#[derive(Clone, Copy, Debug, PartialEq, Eq, Structural)]
pub struct Geometry {
    pub width: usize,
    pub height: usize,
    pub bytes_per_pixel: usize,
}

impl Geometry {
    /// Number of bytes in one frame.
    pub open spec fn frame_size(self) -> int {
        self.width * self.height * self.bytes_per_pixel
    }

    /// The frame size and the pixel count both fit in a `usize`.
    pub open spec fn wf(self) -> bool {
        &&& self.width * self.height <= usize::MAX
        &&& self.frame_size() <= usize::MAX
    }
}

/// Sensor coordinates of the pen.
#[derive(Clone, Copy, Debug, PartialEq, Eq, Structural)]
pub struct Position {
    pub x: usize,
    pub y: usize,
}

/// What is known of the pen: where it hovers, and whether it touches the surface.
#[derive(Clone, Copy, Debug, PartialEq, Eq, Structural)]
pub struct PointerState {
    pub position: Option<Position>,
    pub drawing: bool,
}

/// A decoded event of the pen digitizer.
#[derive(Clone, Copy, Debug, PartialEq, Eq, Structural)]
pub enum PointerEvent {
    /// The pen was seen at sensor coordinates `(x, y)`.
    Moved { x: usize, y: usize },
    /// The pen tip touched the surface.
    ContactStarted,
    /// The pen tip left the surface.
    ContactEnded,
    /// The pen left the sensing range.
    OutOfRange,
}

/// The state after one event.
pub open spec fn next_state(s: PointerState, e: PointerEvent) -> PointerState {
    match e {
        PointerEvent::Moved { x, y } => PointerState { position: Some(Position { x, y }), ..s },
        PointerEvent::ContactStarted => PointerState { drawing: true, ..s },
        PointerEvent::ContactEnded => PointerState { drawing: false, ..s },
        PointerEvent::OutOfRange => PointerState { position: None, ..s },
    }
}

/// The state after a run of events, taken in order.
pub open spec fn drained(s: PointerState, events: Seq<PointerEvent>) -> PointerState
    decreases events.len(),
{
    if events.len() == 0 {
        s
    } else {
        next_state(drained(s, events.drop_last()), events.last())
    }
}

impl PointerState {
    /// No position known, pen not touching.
    pub fn new() -> (r: PointerState)
        ensures
            r.position.is_none(),
            !r.drawing,
    {
        PointerState { position: None, drawing: false }
    }

    /// Takes one event into account.
    pub fn apply(&mut self, e: PointerEvent)
        ensures
            *final(self) == next_state(*old(self), e),
    {
        match e {
            PointerEvent::Moved { x, y } => self.position = Some(Position { x, y }),
            PointerEvent::ContactStarted => self.drawing = true,
            PointerEvent::ContactEnded => self.drawing = false,
            PointerEvent::OutOfRange => self.position = None,
        }
    }

    /// Takes every pending event into account, oldest first.
    pub fn apply_all(&mut self, events: &[PointerEvent])
        ensures
            *final(self) == drained(*old(self), events@),
    {
        let n = events.len();
        let mut i: usize = 0;
        while i < n
            invariant
                n == events@.len(),
                i <= n,
                *self == drained(*old(self), events@.take(i as int)),
            decreases n - i,
        {
            proof {
                assert(events@.take(i as int + 1).drop_last() =~= events@.take(i as int));
            }
            self.apply(events[i]);
            i = i + 1;
        }
        proof {
            assert(events@.take(n as int) =~= events@);
        }
    }
}

pub open spec fn abs(v: int) -> int {
    if v < 0 {
        -v
    } else {
        v
    }
}

/// Pixel (column, row) on which the glyph is centred for sensor coordinates
/// `(x, y)`. A buffer wider than tall is rotated against the sensor: the axes
/// swap and the rows run opposite to the sensor's vertical axis.
pub open spec fn glyph_center(g: Geometry, x: int, y: int) -> (int, int) {
    if g.width > g.height {
        (y, g.height - x)
    } else {
        (x, y)
    }
}

/// Whether pixel (col, row) lies in the diamond around `center`.
pub open spec fn in_diamond(center: (int, int), col: int, row: int) -> bool {
    abs(col - center.0) + abs(row - center.1) <= GLYPH_RADIUS
}

/// Whether byte `addr` of a frame lies under the glyph: the pen hovers without
/// touching, and the byte belongs to a pixel of the diamond inside the frame.
pub open spec fn covered(s: PointerState, g: Geometry, addr: int) -> bool {
    &&& !s.drawing
    &&& s.position.is_some()
    &&& 0 <= addr < g.frame_size()
    &&& {
        let pixel = addr / (g.bytes_per_pixel as int);
        let p = s.position.unwrap();
        in_diamond(
            glyph_center(g, p.x as int, p.y as int),
            pixel % (g.width as int),
            pixel / (g.width as int),
        )
    }
}

pub open spec fn invert_if(flag: bool, b: u8) -> u8 {
    if flag {
        (255 - b) as u8
    } else {
        b
    }
}

/// `bytes`, taken to start at byte `base` of a frame, with the glyph stamped on it.
pub open spec fn stamped(s: PointerState, g: Geometry, base: int, bytes: Seq<u8>) -> Seq<u8> {
    Seq::new(bytes.len(), |i: int| invert_if(covered(s, g, base + i), bytes[i]))
}

proof fn lemma_frame_factors(w: int, h: int, b: int)
    requires
        0 <= w,
        0 <= h,
        0 <= b,
        w * h * b > 0,
    ensures
        w > 0,
        h > 0,
        b > 0,
{
    if w == 0 {
        assert(w * h * b == 0) by (nonlinear_arith)
            requires
                w == 0,
        ;
    }
    if h == 0 {
        assert(w * h * b == 0) by (nonlinear_arith)
            requires
                h == 0,
        ;
    }
    if b == 0 {
        assert(w * h * b == 0) by (nonlinear_arith)
            requires
                b == 0,
        ;
    }
}

fn abs_diff(a: i128, b: i128) -> (r: i128)
    requires
        -0x1_0000_0000_0000_0000 <= a <= 0x1_0000_0000_0000_0000,
        -0x1_0000_0000_0000_0000 <= b <= 0x1_0000_0000_0000_0000,
    ensures
        r == abs(a - b),
{
    if a < b {
        b - a
    } else {
        a - b
    }
}

/// Whether byte `addr` of a frame lies under the glyph.
pub fn byte_covered(s: &PointerState, g: &Geometry, addr: usize) -> (r: bool)
    requires
        g.wf(),
    ensures
        r == covered(*s, *g, addr as int),
{
    if s.drawing {
        return false;
    }
    match s.position {
        None => false,
        Some(p) => {
            let (x, y) = (p.x, p.y);
            let size = g.width * g.height * g.bytes_per_pixel;
            if addr >= size {
                return false;
            }
            proof {
                lemma_frame_factors(g.width as int, g.height as int, g.bytes_per_pixel as int);
            }
            let pixel = addr / g.bytes_per_pixel;
            let col = pixel % g.width;
            let row = pixel / g.width;
            let (cx, cy): (i128, i128) = if g.width > g.height {
                (y as i128, g.height as i128 - x as i128)
            } else {
                (x as i128, y as i128)
            };
            let dc = abs_diff(col as i128, cx);
            let dr = abs_diff(row as i128, cy);
            dc + dr <= GLYPH_RADIUS as i128
        },
    }
}

/// Row of the pixel buffer on which the glyph is centred.
pub open spec fn center_row(s: PointerState, g: Geometry) -> int {
    let p = s.position.unwrap();
    glyph_center(g, p.x as int, p.y as int).1
}

/// A byte under the glyph lies in a row within the glyph's radius of its
/// centre row, so bytes of rows outside `[lo, hi)` are never covered.
proof fn lemma_outside_rows(s: PointerState, g: Geometry, addr: int, lo: int, hi: int)
    requires
        g.wf(),
        0 <= lo <= hi <= g.height,
        lo <= center_row(s, g) - GLYPH_RADIUS || lo == 0,
        hi >= center_row(s, g) + GLYPH_RADIUS + 1 || hi == g.height,
        addr < lo * g.width * g.bytes_per_pixel || addr >= hi * g.width * g.bytes_per_pixel,
    ensures
        !covered(s, g, addr),
{
    if covered(s, g, addr) {
        let w = g.width as int;
        let b = g.bytes_per_pixel as int;
        lemma_glyph_in_frame(s, g, addr);
        lemma_frame_factors(w, g.height as int, b);
        let pixel = addr / b;
        let row = pixel / w;
        lemma_fundamental_div_mod(addr, b);
        lemma_fundamental_div_mod(pixel, w);
        assert(0 <= addr % b < b);
        assert(0 <= pixel % w < w);
        assert(lo <= row < hi);
        assert(lo * w * b <= addr) by (nonlinear_arith)
            requires
                lo <= row,
                0 <= lo,
                w > 0,
                b > 0,
                addr == b * pixel + addr % b,
                pixel == w * row + pixel % w,
                0 <= addr % b,
                0 <= pixel % w,
        ;
        assert(addr < hi * w * b) by (nonlinear_arith)
            requires
                row < hi,
                w > 0,
                b > 0,
                addr == b * pixel + addr % b,
                pixel == w * row + pixel % w,
                addr % b < b,
                pixel % w < w,
        ;
    }
}

/// Stamps the glyph on the first `len` bytes of `buf`, which hold the frame
/// bytes from `base` on: each covered byte `b` becomes `255 - b`, every other
/// byte stays as it was. Only the bytes of rows that the glyph can reach are
/// looked at.
pub fn stamp(s: &PointerState, g: &Geometry, base: usize, buf: &mut [u8], len: usize)
    requires
        g.wf(),
        len <= old(buf)@.len(),
        base + len <= usize::MAX,
    ensures
        final(buf)@ == stamped(*s, *g, base as int, old(buf)@.take(len as int)) + old(buf)@.skip(
            len as int,
        ),
{
    let ghost orig = buf@;
    let p = match s.position {
        Some(p) => p,
        None => {
            assert(orig =~= stamped(*s, *g, base as int, orig.take(len as int)) + orig.skip(
                len as int,
            ));
            return ;
        },
    };
    if s.drawing {
        assert(orig =~= stamped(*s, *g, base as int, orig.take(len as int)) + orig.skip(
            len as int,
        ));
        return ;
    }
    let h = g.height as i128;
    let radius = GLYPH_RADIUS as i128;
    let cy: i128 = if g.width > g.height {
        h - p.x as i128
    } else {
        p.y as i128
    };
    let lo_row: i128 = if cy - radius <= 0 {
        0
    } else if cy - radius >= h {
        h
    } else {
        cy - radius
    };
    let hi_row: i128 = if cy + radius + 1 <= lo_row {
        lo_row
    } else if cy + radius + 1 >= h {
        h
    } else {
        cy + radius + 1
    };
    let ghost w = g.width as int;
    let ghost bpp = g.bytes_per_pixel as int;
    let ghost hh = g.height as int;
    assert(lo_row * w <= hi_row * w <= w * hh && lo_row * w * bpp <= hi_row * w * bpp <= w * hh
        * bpp) by (nonlinear_arith)
        requires
            0 <= lo_row <= hi_row <= hh,
            w >= 0,
            bpp >= 0,
    ;
    let lo_addr = (lo_row as usize) * g.width * g.bytes_per_pixel;
    let hi_addr = (hi_row as usize) * g.width * g.bytes_per_pixel;
    assert forall|a: int| a < lo_addr || a >= hi_addr implies !covered(*s, *g, a) by {
        lemma_outside_rows(*s, *g, a, lo_row as int, hi_row as int);
    }
    let from: usize = if lo_addr <= base {
        0
    } else if lo_addr - base < len {
        lo_addr - base
    } else {
        len
    };
    let to: usize = if hi_addr <= base {
        0
    } else if hi_addr - base < len {
        hi_addr - base
    } else {
        len
    };
    assert forall|j: int| 0 <= j < from implies buf@[j] == invert_if(
        covered(*s, *g, base + j),
        orig[j],
    ) by {
        assert(base + j < lo_addr);
    }
    let mut i: usize = from;
    while i < to
        invariant
            g.wf(),
            len <= orig.len(),
            base + len <= usize::MAX,
            from <= i <= len,
            to <= len,
            buf@.len() == orig.len(),
            forall|a: int| a < lo_addr || a >= hi_addr ==> !covered(*s, *g, a),
            to < len ==> base + to >= hi_addr,
            forall|j: int|
                0 <= j < i ==> buf@[j] == invert_if(covered(*s, *g, base + j), orig[j]),
            forall|j: int| i <= j < orig.len() ==> buf@[j] == orig[j],
        decreases to - i,
    {
        if byte_covered(s, g, base + i) {
            let b = buf[i];
            buf[i] = 255 - b;
        }
        i = i + 1;
    }
    assert forall|j: int| to <= j < len implies buf@[j] == invert_if(
        covered(*s, *g, base + j),
        orig[j],
    ) by {
        assert(base + j >= hi_addr);
    }
    assert(buf@ =~= stamped(*s, *g, base as int, orig.take(len as int)) + orig.skip(len as int));
}

/// Offsets of `frame` that the overlay changes.
pub open spec fn mutated_offsets(s: PointerState, g: Geometry, frame: Seq<u8>) -> Set<int> {
    Set::new(|i: int| 0 <= i < frame.len() && stamped(s, g, 0, frame)[i] != frame[i])
}

/// Stamping a frame piece by piece, each piece at its own offset, gives what
/// stamping the pieces joined gives: how a frame is cut into reads does not
/// change the overlay.
pub proof fn lemma_stamp_split(s: PointerState, g: Geometry, base: int, a: Seq<u8>, b: Seq<u8>)
    ensures
        stamped(s, g, base, a + b) == stamped(s, g, base, a) + stamped(s, g, base + a.len(), b),
{
    assert(stamped(s, g, base, a + b) =~= stamped(s, g, base, a) + stamped(
        s,
        g,
        base + a.len(),
        b,
    ));
}

/// With no new pen event, every frame has the same bytes changed by the
/// overlay, whatever the frames hold: those under the glyph, and each of them
/// becomes `255` minus the captured value.
pub proof fn lemma_overlay_stable(s: PointerState, g: Geometry, f1: Seq<u8>, f2: Seq<u8>)
    requires
        f1.len() == f2.len(),
    ensures
        drained(s, Seq::empty()) == s,
        mutated_offsets(drained(s, Seq::empty()), g, f2) == mutated_offsets(s, g, f1),
        mutated_offsets(s, g, f1) == Set::new(|i: int| 0 <= i < f1.len() && covered(s, g, i)),
        forall|i: int|
            #![trigger mutated_offsets(s, g, f1).contains(i)]
            mutated_offsets(s, g, f1).contains(i) ==> stamped(s, g, 0, f1)[i] == 255 - f1[i],
{
    assert(mutated_offsets(s, g, f1) =~= Set::new(|i: int| 0 <= i < f1.len() && covered(s, g, i)));
    assert(mutated_offsets(s, g, f2) =~= Set::new(|i: int| 0 <= i < f2.len() && covered(s, g, i)));
}

/// The glyph is clipped to the frame: a byte under it lies inside the frame,
/// in a pixel whose column and row are inside the buffer.
pub proof fn lemma_glyph_in_frame(s: PointerState, g: Geometry, addr: int)
    requires
        covered(s, g, addr),
    ensures
        0 <= addr < g.frame_size(),
        0 <= (addr / (g.bytes_per_pixel as int)) % (g.width as int) < g.width,
        0 <= (addr / (g.bytes_per_pixel as int)) / (g.width as int) < g.height,
{
    let w = g.width as int;
    let h = g.height as int;
    let b = g.bytes_per_pixel as int;
    lemma_frame_factors(w, h, b);
    let pixel = addr / b;
    assert(addr < b * (w * h)) by (nonlinear_arith)
        requires
            addr < w * h * b,
    ;
    lemma_multiply_divide_lt(addr, b, w * h);
    lemma_div_pos_is_pos(addr, b);
    lemma_multiply_divide_lt(pixel, w, h);
    lemma_div_pos_is_pos(pixel, w);
}

} // verus!
