//! Renderer construction parameters, and the resolution strings the host
//! passes on the command line.

use vstd::prelude::*;
use crate::text::push_str;

verus! {

/// A render-target size in pixels.
#[derive(Copy, Clone, Debug, PartialEq, Eq, Structural)]
pub struct Resolution {
    pub width: u32,
    pub height: u32,
}

/// Multisample anti-aliasing setting.
#[derive(Copy, Clone, Debug, PartialEq, Eq, Structural)]
pub enum MSAA {
    NoMSAA,
    MSAA2x,
    MSAA4x,
    MSAA8x,
    MSAA16x,
}

impl MSAA {
    /// Samples per pixel.
    pub open spec fn spec_samples(self) -> u32 {
        match self {
            MSAA::NoMSAA => 1,
            MSAA::MSAA2x => 2,
            MSAA::MSAA4x => 4,
            MSAA::MSAA8x => 8,
            MSAA::MSAA16x => 16,
        }
    }

    /// Samples per pixel.
    pub fn samples(self) -> (r: u32)
        ensures
            r == self.spec_samples(),
    {
        match self {
            MSAA::NoMSAA => 1,
            MSAA::MSAA2x => 2,
            MSAA::MSAA4x => 4,
            MSAA::MSAA8x => 8,
            MSAA::MSAA16x => 16,
        }
    }
}

/// Used for initializing a renderer; the resolution can be changed later by
/// rebuilding the swapchain.
pub struct RendererParameters {
    /// Resolution of the renderer in pixels.
    pub resolution: Resolution,

    /// Number of viewports (must be 1-4).
    pub number_of_viewports: usize,

    /// Enable vSync.
    pub vsync: bool,

    /// Number of samples per pixel.
    pub msaa: MSAA,
}

impl Default for RendererParameters {
    /// 640x480, one viewport, no vSync, no MSAA.
    fn default() -> (r: Self)
        ensures
            r.resolution == (Resolution { width: 640, height: 480 }),
            r.number_of_viewports == 1,
            !r.vsync,
            r.msaa == MSAA::NoMSAA,
    {
        RendererParameters {
            resolution: Resolution { width: 640, height: 480 },
            number_of_viewports: 1,
            vsync: false,
            msaa: MSAA::NoMSAA,
        }
    }
}

/// A resolution separator: the two numbers may be joined by `x` or `,`.
pub open spec fn is_sep(c: char) -> bool {
    c == 'x' || c == ','
}

/// How many separators a string holds.
pub open spec fn sep_count(s: Seq<char>) -> nat
    decreases s.len(),
{
    if s.len() == 0 {
        0
    } else {
        sep_count(s.drop_last()) + if is_sep(s.last()) { 1nat } else { 0nat }
    }
}

/// An ASCII digit.
pub open spec fn is_digit(c: char) -> bool {
    48 <= (c as int) <= 57
}

/// The number the digit string denotes.
pub open spec fn digits_val(s: Seq<char>) -> int
    decreases s.len(),
{
    if s.len() == 0 {
        0
    } else {
        digits_val(s.drop_last()) * 10 + ((s.last() as int) - 48)
    }
}

/// The digits of a number, with the optional leading plus sign removed.
pub open spec fn strip_plus(s: Seq<char>) -> Seq<char> {
    if s.len() > 0 && s[0] == '+' {
        s.drop_first()
    } else {
        s
    }
}

/// The string denotes a `u32`: an optional plus sign, then at least one
/// digit, with the value in range.
pub open spec fn is_u32_str(s: Seq<char>) -> bool {
    &&& strip_plus(s).len() > 0
    &&& forall|i: int| 0 <= i < strip_plus(s).len() ==> is_digit(#[trigger] strip_plus(s)[i])
    &&& digits_val(strip_plus(s)) <= u32::MAX
}

/// Appending digits never shrinks the value.
proof fn lemma_digits_val_monotone(s: Seq<char>, i: int, j: int)
    requires
        0 <= i <= j <= s.len(),
        forall|k: int| 0 <= k < s.len() ==> is_digit(#[trigger] s[k]),
    ensures
        digits_val(s.take(i)) <= digits_val(s.take(j)),
        digits_val(s.take(i)) >= 0,
    decreases j - i,
{
    if i == j {
        lemma_digits_val_nonneg(s.take(i), s);
    } else {
        lemma_digits_val_monotone(s, i, j - 1);
        let t = s.take(j);
        assert(t.drop_last() =~= s.take(j - 1));
        assert(is_digit(t.last()));
        lemma_digits_val_nonneg(s.take(j - 1), s);
    }
}

proof fn lemma_digits_val_nonneg(t: Seq<char>, s: Seq<char>)
    requires
        forall|k: int| 0 <= k < t.len() ==> is_digit(#[trigger] t[k]),
    ensures
        digits_val(t) >= 0,
    decreases t.len(),
{
    if t.len() > 0 {
        assert(forall|k: int| 0 <= k < t.drop_last().len()
            ==> t.drop_last()[k] == t[k]);
        lemma_digits_val_nonneg(t.drop_last(), s);
    }
}

/// Parse an unsigned number with an optional leading plus sign.
fn parse_u32_digits(s: &str) -> (r: Option<u32>)
    ensures
        r is Some <==> is_u32_str(s@),
        r matches Some(v) ==> v == digits_val(strip_plus(s@)),
{
    let n = s.unicode_len();
    let mut i: usize = 0;
    if n > 0 && s.get_char(0) == '+' {
        i = 1;
    }
    let ghost d = strip_plus(s@);
    proof {
        assert(forall|k: int| 0 <= k < d.len() ==> d[k] == s@[k + i]);
    }
    if i == n {
        return None;
    }
    let start = i;
    let mut acc: u64 = 0;
    let mut overflow: bool = false;
    while i < n
        invariant
            start <= i <= n,
            n == s@.len(),
            start == if s@.len() > 0 && s@[0] == '+' { 1int } else { 0int },
            d == strip_plus(s@),
            d.len() == n - start,
            forall|k: int| 0 <= k < d.len() ==> d[k] == s@[k + start],
            forall|k: int| 0 <= k < i - start ==> is_digit(#[trigger] d[k]),
            !overflow ==> acc == digits_val(d.take(i - start)) && acc <= u32::MAX,
            overflow ==> digits_val(d.take(i - start)) > u32::MAX,
            overflow ==> forall|j2: int| i - start <= j2 <= d.len()
                && (forall|k: int| 0 <= k < d.len() ==> is_digit(#[trigger] d[k]))
                ==> digits_val(d.take(j2)) > u32::MAX,
        decreases n - i,
    {
        let c = s.get_char(i);
        if !(c >= '0' && c <= '9') {
            return None;
        }
        proof {
            assert(d[i - start] == s@[i as int]);
            assert(is_digit(d[i - start]));
            assert(d.take(i - start + 1).drop_last() =~= d.take(i - start));
            assert(d.take(i - start + 1).last() == d[i - start]);
        }
        if !overflow {
            let dv: u64 = (c as u64) - 48;
            let next: u64 = acc * 10 + dv;
            if next > 0xFFFF_FFFFu64 {
                overflow = true;
                proof {
                    assert(digits_val(d.take(i - start + 1)) == acc * 10 + dv > u32::MAX);
                    assert forall|j2: int| i + 1 - start <= j2 <= d.len()
                        && (forall|k: int| 0 <= k < d.len() ==> is_digit(#[trigger] d[k]))
                        implies digits_val(d.take(j2)) > u32::MAX by {
                        lemma_digits_val_monotone(d, i + 1 - start, j2);
                    }
                }
            } else {
                acc = next;
            }
        } else {
            proof {
                assert forall|j2: int| i + 1 - start <= j2 <= d.len()
                    && (forall|k: int| 0 <= k < d.len() ==> is_digit(#[trigger] d[k]))
                    implies digits_val(d.take(j2)) > u32::MAX by {
                    assert(digits_val(d.take(j2)) > u32::MAX);
                }
            }
        }
        i = i + 1;
    }
    proof {
        assert(d.take(d.len() as int) =~= d);
    }
    if overflow {
        proof {
            assert(digits_val(d) > u32::MAX);
        }
        return None;
    }
    Some(acc as u32)
}

/// The string is two in-range nonzero numbers joined by exactly one `x` or
/// `,`; `sep` is that separator's position.
pub open spec fn is_valid_resolution_str(s: Seq<char>, sep: int) -> bool {
    &&& 0 <= sep < s.len()
    &&& is_sep(s[sep])
    &&& sep_count(s) == 1
    &&& is_u32_str(s.take(sep))
    &&& is_u32_str(s.skip(sep + 1))
    &&& digits_val(strip_plus(s.take(sep))) > 0
    &&& digits_val(strip_plus(s.skip(sep + 1))) > 0
}

/// Parse `WIDTHxHEIGHT` (or `WIDTH,HEIGHT`): succeeds exactly on strings
/// with one separator and two parseable, nonzero dimensions.
pub fn parse_resolution(resolution_string: String) -> (r: Result<Resolution, String>)
    ensures
        r is Ok <==> exists|sep: int| is_valid_resolution_str(resolution_string@, sep),
        r matches Ok(res) ==> forall|sep: int|
            is_valid_resolution_str(resolution_string@, sep) ==> {
                &&& res.width == digits_val(strip_plus(resolution_string@.take(sep)))
                &&& res.height == digits_val(strip_plus(resolution_string@.skip(sep + 1)))
            },
{
    let s = resolution_string.as_str();
    let n = s.unicode_len();
    let mut seps: usize = 0;
    let mut first_sep: usize = 0;
    let mut i: usize = 0;
    proof {
        assert(s@.take(0) =~= Seq::<char>::empty());
    }
    while i < n
        invariant
            0 <= i <= n,
            n == s@.len(),
            seps <= i,
            seps == sep_count(s@.take(i as int)),
            seps > 0 ==> first_sep < i && is_sep(s@[first_sep as int])
                && sep_count(s@.take(first_sep as int)) == 0,
            seps == 0 ==> forall|k: int| 0 <= k < i ==> !is_sep(s@[k]),
            forall|k: int| 0 <= k < i ==> (is_sep(#[trigger] s@[k]) ==> seps > 0),
        decreases n - i,
    {
        let c = s.get_char(i);
        proof {
            assert(s@.take(i as int + 1).drop_last() =~= s@.take(i as int));
            assert(s@.take(i as int + 1).last() == s@[i as int]);
        }
        if c == 'x' || c == ',' {
            if seps == 0 {
                first_sep = i;
            }
            seps = seps + 1;
        }
        i = i + 1;
    }
    proof {
        assert(s@.take(n as int) =~= s@);
    }
    if seps != 1 {
        proof {
            assert forall|sep: int| !is_valid_resolution_str(s@, sep) by {
                if 0 <= sep < s@.len() && is_sep(s@[sep]) {
                    assert(sep_count(s@) != 1);
                }
            }
        }
        let mut m = String::new();
        push_str(&mut m, "Invalid resolution ");
        push_str(&mut m, s);
        push_str(&mut m, "; bad format");
        return Err(m);
    }
    let sep = first_sep;
    proof {
        lemma_sep_count_one(s@, sep as int);
    }
    let w_part = s.substring_char(0, sep);
    let h_part = s.substring_char(sep + 1, n);
    proof {
        assert(w_part@ =~= s@.take(sep as int));
        assert(h_part@ =~= s@.skip(sep as int + 1));
    }
    let w = parse_u32_digits(w_part);
    let h = parse_u32_digits(h_part);
    match (w, h) {
        (Some(width), Some(height)) => {
            if width == 0 || height == 0 {
                proof {
                    assert forall|sp: int| !is_valid_resolution_str(s@, sp) by {
                        if is_valid_resolution_str(s@, sp) {
                            assert(sp == sep as int);
                        }
                    }
                }
                let mut m = String::new();
                push_str(&mut m, "Invalid resolution ");
                push_str(&mut m, s);
                push_str(&mut m, "; at least one dimension is zero");
                return Err(m);
            }
            proof {
                assert(is_valid_resolution_str(s@, sep as int));
                assert forall|sp: int| is_valid_resolution_str(s@, sp)
                    implies sp == sep as int by {}
            }
            Ok(Resolution { width, height })
        },
        _ => {
            proof {
                assert forall|sp: int| !is_valid_resolution_str(s@, sp) by {
                    if is_valid_resolution_str(s@, sp) {
                        assert(sp == sep as int);
                    }
                }
            }
            let mut m = String::new();
            push_str(&mut m, "Invalid resolution ");
            push_str(&mut m, s);
            push_str(&mut m, "; must be numberxnumber or number,number");
            Err(m)
        },
    }
}

/// With exactly one separator in the string, any separator position is the
/// recorded one.
proof fn lemma_sep_count_one(s: Seq<char>, sep: int)
    requires
        sep_count(s) == 1,
        0 <= sep < s.len(),
        is_sep(s[sep]),
        sep_count(s.take(sep)) == 0,
    ensures
        forall|k: int| 0 <= k < s.len() && is_sep(#[trigger] s[k]) ==> k == sep,
    decreases s.len(),
{
    assert forall|k: int| 0 <= k < s.len() && is_sep(#[trigger] s[k]) implies k == sep by {
        if k != sep {
            if k < sep {
                lemma_sep_count_member(s.take(sep), k);
            } else {
                lemma_sep_count_split(s, sep, k);
            }
        }
    }
}

/// A separator inside a string contributes to its count.
proof fn lemma_sep_count_member(s: Seq<char>, k: int)
    requires
        0 <= k < s.len(),
        is_sep(s[k]),
    ensures
        sep_count(s) >= 1,
    decreases s.len(),
{
    if k == s.len() - 1 {
    } else {
        assert(s.drop_last()[k] == s[k]);
        lemma_sep_count_member(s.drop_last(), k);
    }
}

/// Two distinct separators make the count at least two.
proof fn lemma_sep_count_split(s: Seq<char>, a: int, b: int)
    requires
        0 <= a < b < s.len(),
        is_sep(s[a]),
        is_sep(s[b]),
    ensures
        sep_count(s) >= 2,
    decreases s.len(),
{
    if b == s.len() - 1 {
        assert(s.drop_last()[a] == s[a]);
        lemma_sep_count_member(s.drop_last(), a);
    } else {
        assert(s.drop_last()[a] == s[a]);
        assert(s.drop_last()[b] == s[b]);
        lemma_sep_count_split(s.drop_last(), a, b);
    }
}

} // verus!
