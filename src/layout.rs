use vstd::prelude::*;

verus! {

/// How the channels of one pixel lie in a flat byte buffer.
#[derive(Clone, Copy, Debug, PartialEq, Eq, Structural)]
pub enum ByteLayout {
    /// red, green, blue
    Rgb,
    /// red, green, blue, alpha
    Rgba,
    /// alpha, red, green, blue
    Argb,
    /// blue, green, red
    Bgr,
    /// blue, green, red, alpha
    Bgra,
    /// alpha, blue, green, red
    Abgr,
}

impl ByteLayout {
    /// Number of bytes of one pixel.
    pub open spec fn spec_stride(self) -> int {
        match self {
            ByteLayout::Rgb | ByteLayout::Bgr => 3,
            _ => 4,
        }
    }

    /// Position of red, green and blue (channel 0, 1, 2) within one pixel.
    pub open spec fn spec_offset(self, ch: int) -> int {
        match self {
            ByteLayout::Rgb | ByteLayout::Rgba => ch,
            ByteLayout::Argb => ch + 1,
            ByteLayout::Bgr | ByteLayout::Bgra => 2 - ch,
            ByteLayout::Abgr => 3 - ch,
        }
    }

    pub fn stride(&self) -> (r: usize)
        ensures
            r == self.spec_stride(),
    {
        match self {
            ByteLayout::Rgb | ByteLayout::Bgr => 3,
            _ => 4,
        }
    }

    /// Positions of red, green and blue within one pixel.
    pub fn offsets(&self) -> (r: [usize; 3])
        ensures
            forall|ch: int| 0 <= ch < 3 ==> r[ch] == self.spec_offset(ch),
    {
        match self {
            ByteLayout::Rgb | ByteLayout::Rgba => [0, 1, 2],
            ByteLayout::Argb => [1, 2, 3],
            ByteLayout::Bgr | ByteLayout::Bgra => [2, 1, 0],
            ByteLayout::Abgr => [3, 2, 1],
        }
    }
}

/// The RGB triples held by a flat buffer of pixels in `layout`: one per
/// complete pixel, in order. Alpha is dropped, and so are bytes after the last
/// complete pixel.
pub open spec fn pixels_of(bytes: Seq<u8>, layout: ByteLayout) -> Seq<[u8; 3]> {
    let w = layout.spec_stride();
    Seq::new(
        (bytes.len() as int / w) as nat,
        |i: int|
            [
                bytes[w * i + layout.spec_offset(0)],
                bytes[w * i + layout.spec_offset(1)],
                bytes[w * i + layout.spec_offset(2)],
            ],
    )
}

/// The flat buffer that holds `rgbs` as consecutive red, green, blue bytes.
pub open spec fn bytes_of(rgbs: Seq<[u8; 3]>) -> Seq<u8> {
    Seq::new(3 * rgbs.len(), |i: int| rgbs[i / 3][i % 3])
}

proof fn lemma_pixel_in_bounds(i: int, w: int, len: int)
    requires
        0 <= i < len / w,
        3 <= w <= 4,
        0 <= len,
    ensures
        w * i + w <= len,
{
    assert(w * i + w <= len) by (nonlinear_arith)
        requires
            0 <= i < len / w,
            3 <= w <= 4,
            0 <= len,
    ;
}

/// Reads each complete pixel of `bytes`, laid out as `layout` says, as an RGB
/// triple. A trailing partial pixel is dropped, not reported.
pub fn bytes_to_rgbs(bytes: &[u8], layout: ByteLayout) -> (out: Vec<[u8; 3]>)
    ensures
        out@ == pixels_of(bytes@, layout),
{
    let len: usize = bytes.len();
    let w: usize = layout.stride();
    let off: [usize; 3] = layout.offsets();
    let n: usize = len / w;
    let mut out: Vec<[u8; 3]> = Vec::with_capacity(n);
    let mut i: usize = 0;
    while i < n
        invariant
            len == bytes@.len(),
            w == layout.spec_stride(),
            forall|ch: int| 0 <= ch < 3 ==> off[ch] == layout.spec_offset(ch),
            n == len / w,
            i <= n,
            out@ == pixels_of(bytes@, layout).take(i as int),
        decreases n - i,
    {
        proof {
            lemma_pixel_in_bounds(i as int, w as int, len as int);
        }
        let k: usize = w * i;
        let t: [u8; 3] = [bytes[k + off[0]], bytes[k + off[1]], bytes[k + off[2]]];
        out.push(t);
        i += 1;
        assert(out@ =~= pixels_of(bytes@, layout).take(i as int));
    }
    assert(pixels_of(bytes@, layout).take(n as int) =~= pixels_of(bytes@, layout));
    out
}

/// Writes RGB triples into a flat buffer of consecutive red, green, blue bytes.
pub fn rgbs_to_bytes(rgbs: &[[u8; 3]]) -> (out: Vec<u8>)
    requires
        3 * rgbs@.len() <= usize::MAX,
    ensures
        out@ == bytes_of(rgbs@),
{
    let n: usize = rgbs.len();
    let mut out: Vec<u8> = Vec::with_capacity(3 * n);
    let mut i: usize = 0;
    while i < n
        invariant
            n == rgbs@.len(),
            i <= n,
            out@ == bytes_of(rgbs@).take(3 * i),
        decreases n - i,
    {
        let t: [u8; 3] = rgbs[i];
        out.push(t[0]);
        out.push(t[1]);
        out.push(t[2]);
        i += 1;
        assert forall|m: int| 0 <= m < 3 * i implies out@[m] == bytes_of(rgbs@)[m] by {
            if m >= 3 * i - 3 {
                assert(m / 3 == i - 1);
            }
        }
        assert(out@ =~= bytes_of(rgbs@).take(3 * i));
    }
    assert(bytes_of(rgbs@).take(3 * n) =~= bytes_of(rgbs@));
    out
}

/// Reading a flat RGB buffer as triples and writing them back gives the buffer
/// without its trailing partial triple.
pub proof fn lemma_bytes_round_trip(bytes: Seq<u8>)
    ensures
        bytes_of(pixels_of(bytes, ByteLayout::Rgb)) == bytes.take(bytes.len() as int / 3 * 3),
{
    let t = pixels_of(bytes, ByteLayout::Rgb);
    let n = bytes.len() / 3;
    assert forall|m: int| 0 <= m < 3 * n implies #[trigger] bytes_of(t)[m] == bytes[m] by {
        let i = m / 3;
        assert(0 <= i < n);
        assert(3 * i + m % 3 == m);
    }
    assert(bytes_of(t) =~= bytes.take(bytes.len() as int / 3 * 3));
}

/// Writing triples to a flat RGB buffer and reading it back gives the same
/// triples.
pub proof fn lemma_rgbs_round_trip(rgbs: Seq<[u8; 3]>)
    ensures
        pixels_of(bytes_of(rgbs), ByteLayout::Rgb) == rgbs,
{
    let b = bytes_of(rgbs);
    let p = pixels_of(b, ByteLayout::Rgb);
    assert(b.len() / 3 == rgbs.len());
    assert forall|i: int| 0 <= i < rgbs.len() implies #[trigger] p[i] == rgbs[i] by {
        assert forall|ch: int| 0 <= ch < 3 implies b[3 * i + ch] == rgbs[i][ch] by {
            assert((3 * i + ch) / 3 == i);
            assert((3 * i + ch) % 3 == ch);
        }
        assert(p[i]@ =~= rgbs[i]@);
    }
    assert(p =~= rgbs);
}

} // verus!
