//! Transcoding of monochrome pixel formats into the four-byte BGRA layout
//! the backend uploads: a mechanical per-pixel transform, stated exactly.

use vstd::prelude::*;
use crate::bitmap::BitmapFormat;

verus! {

/// Formats the backend takes as-is, without transcoding.
pub open spec fn spec_passthrough(format: BitmapFormat) -> bool {
    match format {
        BitmapFormat::A8 => false,
        BitmapFormat::Y8 => false,
        BitmapFormat::AY8 => false,
        BitmapFormat::A8Y8 => false,
        BitmapFormat::P8 => false,
        _ => true,
    }
}

/// Alpha-only pixels become white with that alpha.
fn expand_a8(data: &Vec<u8>) -> (out: Vec<u8>)
    ensures
        out@.len() == 4 * data@.len(),
        forall|i: int| 0 <= i < data@.len() ==> {
            &&& (#[trigger] out@[4 * i]) == 0xFF
            &&& out@[4 * i + 1] == 0xFF
            &&& out@[4 * i + 2] == 0xFF
            &&& out@[4 * i + 3] == data@[i]
        },
{
    let mut out: Vec<u8> = Vec::new();
    let mut i: usize = 0;
    while i < data.len()
        invariant
            0 <= i <= data@.len(),
            out@.len() == 4 * i,
            forall|k: int| 0 <= k < i ==> {
                &&& (#[trigger] out@[4 * k]) == 0xFF
                &&& out@[4 * k + 1] == 0xFF
                &&& out@[4 * k + 2] == 0xFF
                &&& out@[4 * k + 3] == data@[k]
            },
        decreases data@.len() - i,
    {
        let a = data[i];
        let ghost preout = out@;
        out.push(0xFF);
        out.push(0xFF);
        out.push(0xFF);
        out.push(a);
        proof {
            assert forall|k: int| 0 <= k < i + 1 implies {
                &&& (#[trigger] out@[4 * k]) == 0xFF
                &&& out@[4 * k + 1] == 0xFF
                &&& out@[4 * k + 2] == 0xFF
                &&& out@[4 * k + 3] == data@[k]
            } by {
                if k < i {
                    assert(preout[4 * k] == 0xFF);
                    assert(preout[4 * k + 1] == 0xFF);
                    assert(preout[4 * k + 2] == 0xFF);
                    assert(preout[4 * k + 3] == data@[k]);
                    assert(out@[4 * k] == preout[4 * k]);
                    assert(out@[4 * k + 1] == preout[4 * k + 1]);
                    assert(out@[4 * k + 2] == preout[4 * k + 2]);
                    assert(out@[4 * k + 3] == preout[4 * k + 3]);
                } else {
                    assert(out@[4 * k] == 0xFF);
                    assert(out@[4 * k + 1] == 0xFF);
                    assert(out@[4 * k + 2] == 0xFF);
                    assert(out@[4 * k + 3] == data@[k]);
                }
            }
        }
        i = i + 1;
    }
    out
}

/// Luminance-only pixels become opaque gray levels.
fn expand_y8(data: &Vec<u8>, opaque: bool) -> (out: Vec<u8>)
    ensures
        out@.len() == 4 * data@.len(),
        forall|i: int| 0 <= i < data@.len() ==> {
            &&& (#[trigger] out@[4 * i]) == data@[i]
            &&& out@[4 * i + 1] == data@[i]
            &&& out@[4 * i + 2] == data@[i]
            &&& out@[4 * i + 3] == (if opaque { 0xFFu8 } else { data@[i] })
        },
{
    let mut out: Vec<u8> = Vec::new();
    let mut i: usize = 0;
    while i < data.len()
        invariant
            0 <= i <= data@.len(),
            out@.len() == 4 * i,
            forall|k: int| 0 <= k < i ==> {
                &&& (#[trigger] out@[4 * k]) == data@[k]
                &&& out@[4 * k + 1] == data@[k]
                &&& out@[4 * k + 2] == data@[k]
                &&& out@[4 * k + 3] == (if opaque { 0xFFu8 } else { data@[k] })
            },
        decreases data@.len() - i,
    {
        let y = data[i];
        let alpha: u8 = if opaque { 0xFF } else { y };
        let ghost preout = out@;
        out.push(y);
        out.push(y);
        out.push(y);
        out.push(alpha);
        proof {
            assert forall|k: int| 0 <= k < i + 1 implies {
                &&& (#[trigger] out@[4 * k]) == data@[k]
                &&& out@[4 * k + 1] == data@[k]
                &&& out@[4 * k + 2] == data@[k]
                &&& out@[4 * k + 3] == (if opaque { 0xFFu8 } else { data@[k] })
            } by {
                if k < i {
                    assert(preout[4 * k] == data@[k]);
                    assert(preout[4 * k + 1] == data@[k]);
                    assert(preout[4 * k + 2] == data@[k]);
                    assert(preout[4 * k + 3] == (if opaque { 0xFFu8 } else { data@[k] }));
                    assert(out@[4 * k] == preout[4 * k]);
                    assert(out@[4 * k + 1] == preout[4 * k + 1]);
                    assert(out@[4 * k + 2] == preout[4 * k + 2]);
                    assert(out@[4 * k + 3] == preout[4 * k + 3]);
                } else {
                    assert(out@[4 * k] == data@[k]);
                    assert(out@[4 * k + 1] == data@[k]);
                    assert(out@[4 * k + 2] == data@[k]);
                    assert(out@[4 * k + 3] == (if opaque { 0xFFu8 } else { data@[k] }));
                }
            }
        }
        i = i + 1;
    }
    out
}

/// Alpha-and-luminance pairs combine into one gray pixel with alpha.
fn expand_a8y8(data: &Vec<u8>) -> (out: Vec<u8>)
    requires
        data@.len() % 2 == 0,
    ensures
        out@.len() == 2 * data@.len(),
        forall|i: int| 0 <= i < data@.len() / 2 ==> {
            &&& (#[trigger] out@[4 * i]) == data@[2 * i + 1]
            &&& out@[4 * i + 1] == data@[2 * i + 1]
            &&& out@[4 * i + 2] == data@[2 * i + 1]
            &&& out@[4 * i + 3] == data@[2 * i]
        },
{
    let mut out: Vec<u8> = Vec::new();
    let mut i: usize = 0;
    let dn = data.len();
    let pairs = dn / 2;
    while i < pairs
        invariant
            0 <= i <= pairs,
            dn == data@.len(),
            pairs == data@.len() / 2,
            data@.len() % 2 == 0,
            out@.len() == 4 * i,
            forall|k: int| 0 <= k < i ==> {
                &&& (#[trigger] out@[4 * k]) == data@[2 * k + 1]
                &&& out@[4 * k + 1] == data@[2 * k + 1]
                &&& out@[4 * k + 2] == data@[2 * k + 1]
                &&& out@[4 * k + 3] == data@[2 * k]
            },
        decreases pairs - i,
    {
        proof {
            assert(2 * i + 1 < data@.len());
        }
        let a = data[2 * i];
        let y = data[2 * i + 1];
        let ghost preout = out@;
        out.push(y);
        out.push(y);
        out.push(y);
        out.push(a);
        proof {
            assert forall|k: int| 0 <= k < i + 1 implies {
                &&& (#[trigger] out@[4 * k]) == data@[2 * k + 1]
                &&& out@[4 * k + 1] == data@[2 * k + 1]
                &&& out@[4 * k + 2] == data@[2 * k + 1]
                &&& out@[4 * k + 3] == data@[2 * k]
            } by {
                if k < i {
                    assert(preout[4 * k] == data@[2 * k + 1]);
                    assert(preout[4 * k + 1] == data@[2 * k + 1]);
                    assert(preout[4 * k + 2] == data@[2 * k + 1]);
                    assert(preout[4 * k + 3] == data@[2 * k]);
                    assert(out@[4 * k] == preout[4 * k]);
                    assert(out@[4 * k + 1] == preout[4 * k + 1]);
                    assert(out@[4 * k + 2] == preout[4 * k + 2]);
                    assert(out@[4 * k + 3] == preout[4 * k + 3]);
                } else {
                    assert(out@[4 * k] == data@[2 * k + 1]);
                    assert(out@[4 * k + 1] == data@[2 * k + 1]);
                    assert(out@[4 * k + 2] == data@[2 * k + 1]);
                    assert(out@[4 * k + 3] == data@[2 * k]);
                }
            }
        }
        i = i + 1;
    }
    proof {
        assert(out@.len() == 4 * (data@.len() / 2));
        assert(4 * (data@.len() / 2) == 2 * data@.len()) by (nonlinear_arith)
            requires data@.len() % 2 == 0;
    }
    out
}

/// Expand the monochrome formats to four bytes per pixel: an alpha-only
/// pixel becomes white with that alpha; a luminance-only pixel is opaque;
/// an alpha-luminance pair combines both; self-luminant pixels carry their
/// level into the alpha channel too. Pass-through formats and palettized
/// data give `None`, as does alpha-luminance data of odd length.
pub fn transcode_to_bgra8(format: BitmapFormat, data: &Vec<u8>) -> (r: Option<Vec<u8>>)
    ensures
        format == BitmapFormat::A8 ==> (r matches Some(o) && o@.len() == 4 * data@.len()
            && forall|i: int| 0 <= i < data@.len() ==> {
                &&& (#[trigger] o@[4 * i]) == 0xFF
                &&& o@[4 * i + 1] == 0xFF
                &&& o@[4 * i + 2] == 0xFF
                &&& o@[4 * i + 3] == data@[i]
            }),
        format == BitmapFormat::Y8 ==> (r matches Some(o) && o@.len() == 4 * data@.len()
            && forall|i: int| 0 <= i < data@.len() ==> {
                &&& (#[trigger] o@[4 * i]) == data@[i]
                &&& o@[4 * i + 1] == data@[i]
                &&& o@[4 * i + 2] == data@[i]
                &&& o@[4 * i + 3] == 0xFF
            }),
        format == BitmapFormat::AY8 ==> (r matches Some(o) && o@.len() == 4 * data@.len()
            && forall|i: int| 0 <= i < data@.len() ==> {
                &&& (#[trigger] o@[4 * i]) == data@[i]
                &&& o@[4 * i + 1] == data@[i]
                &&& o@[4 * i + 2] == data@[i]
                &&& o@[4 * i + 3] == data@[i]
            }),
        format == BitmapFormat::A8Y8 && data@.len() % 2 == 0 ==> (r matches Some(o)
            && o@.len() == 2 * data@.len()
            && forall|i: int| 0 <= i < data@.len() / 2 ==> {
                &&& (#[trigger] o@[4 * i]) == data@[2 * i + 1]
                &&& o@[4 * i + 1] == data@[2 * i + 1]
                &&& o@[4 * i + 2] == data@[2 * i + 1]
                &&& o@[4 * i + 3] == data@[2 * i]
            }),
        format == BitmapFormat::A8Y8 && data@.len() % 2 != 0 ==> r is None,
        spec_passthrough(format) || format == BitmapFormat::P8 ==> r is None,
{
    match format {
        BitmapFormat::A8 => {
            let o = expand_a8(data);
            Some(o)
        },
        BitmapFormat::Y8 => {
            let o = expand_y8(data, true);
            proof {
                assert forall|i: int| 0 <= i < data@.len() implies {
                    &&& (#[trigger] o@[4 * i]) == data@[i]
                    &&& o@[4 * i + 1] == data@[i]
                    &&& o@[4 * i + 2] == data@[i]
                    &&& o@[4 * i + 3] == 0xFF
                } by {
                    assert(o@[4 * i] == data@[i]);
                    assert(o@[4 * i + 3] == (if true { 0xFFu8 } else { data@[i] }));
                }
            }
            Some(o)
        },
        BitmapFormat::AY8 => {
            let o = expand_y8(data, false);
            proof {
                assert forall|i: int| 0 <= i < data@.len() implies {
                    &&& (#[trigger] o@[4 * i]) == data@[i]
                    &&& o@[4 * i + 1] == data@[i]
                    &&& o@[4 * i + 2] == data@[i]
                    &&& o@[4 * i + 3] == data@[i]
                } by {
                    assert(o@[4 * i] == data@[i]);
                    assert(o@[4 * i + 3] == (if false { 0xFFu8 } else { data@[i] }));
                }
            }
            Some(o)
        },
        BitmapFormat::A8Y8 => {
            if data.len() % 2 != 0 {
                return None;
            }
            let o = expand_a8y8(data);
            Some(o)
        },
        _ => None,
    }
}

} // verus!
