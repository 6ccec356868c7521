//! Bitmaps: pixel formats, dimensionality, sequences, and the load-time
//! validation that ties a bitmap's declared shape to the bytes it carries.

use vstd::prelude::*;
use crate::error::{Error, MResult};
use crate::params::Resolution;
use crate::text::{push_str, push_usize};

verus! {

/// Dimensionality of a bitmap.
#[derive(Copy, Clone, Debug, PartialEq, Eq, Structural)]
pub enum BitmapType {
    Dim2D,
    Dim3D { depth: u32 },
    Cubemap,
}

impl BitmapType {
    /// Same dimensionality class, ignoring the depth of a 3D bitmap.
    pub open spec fn same_class(self, other: BitmapType) -> bool {
        match (self, other) {
            (BitmapType::Dim2D, BitmapType::Dim2D) => true,
            (BitmapType::Dim3D { .. }, BitmapType::Dim3D { .. }) => true,
            (BitmapType::Cubemap, BitmapType::Cubemap) => true,
            _ => false,
        }
    }
}

/// Pixel format of a bitmap's data.
#[derive(Copy, Clone, Debug, PartialEq, Eq, Structural)]
pub enum BitmapFormat {
    DXT1,
    DXT3,
    DXT5,
    BC7,
    A8R8G8B8,
    X8R8G8B8,
    R5G6B5,
    A1R5G5B5,
    A4R4G4B4,
    R32G32B32A32SFloat,
    A8,
    Y8,
    AY8,
    A8Y8,
    P8,
}

impl BitmapFormat {
    /// Pixels along one edge of a compression block.
    pub open spec fn spec_block_pixel_length(self) -> usize {
        match self {
            BitmapFormat::DXT1 => 4,
            BitmapFormat::DXT3 => 4,
            BitmapFormat::DXT5 => 4,
            BitmapFormat::BC7 => 4,
            _ => 1,
        }
    }

    /// Pixels along one edge of a compression block.
    pub fn block_pixel_length(self) -> (r: usize)
        ensures
            r == self.spec_block_pixel_length(),
    {
        match self {
            BitmapFormat::DXT1 => 4,
            BitmapFormat::DXT3 => 4,
            BitmapFormat::DXT5 => 4,
            BitmapFormat::BC7 => 4,
            _ => 1,
        }
    }

    /// Bytes one block occupies.
    pub open spec fn spec_block_byte_size(self) -> usize {
        match self {
            BitmapFormat::DXT1 => 8,
            BitmapFormat::DXT3 => 16,
            BitmapFormat::DXT5 => 16,
            BitmapFormat::BC7 => 16,
            BitmapFormat::A8R8G8B8 => 4,
            BitmapFormat::X8R8G8B8 => 4,
            BitmapFormat::R5G6B5 => 2,
            BitmapFormat::A1R5G5B5 => 2,
            BitmapFormat::A4R4G4B4 => 2,
            BitmapFormat::R32G32B32A32SFloat => 16,
            BitmapFormat::A8 => 1,
            BitmapFormat::Y8 => 1,
            BitmapFormat::AY8 => 1,
            BitmapFormat::A8Y8 => 2,
            BitmapFormat::P8 => 1,
        }
    }

    /// Bytes one block occupies.
    pub fn block_byte_size(self) -> (r: usize)
        ensures
            r == self.spec_block_byte_size(),
    {
        match self {
            BitmapFormat::DXT1 => 8,
            BitmapFormat::DXT3 => 16,
            BitmapFormat::DXT5 => 16,
            BitmapFormat::BC7 => 16,
            BitmapFormat::A8R8G8B8 => 4,
            BitmapFormat::X8R8G8B8 => 4,
            BitmapFormat::R5G6B5 => 2,
            BitmapFormat::A1R5G5B5 => 2,
            BitmapFormat::A4R4G4B4 => 2,
            BitmapFormat::R32G32B32A32SFloat => 16,
            BitmapFormat::A8 => 1,
            BitmapFormat::Y8 => 1,
            BitmapFormat::AY8 => 1,
            BitmapFormat::A8Y8 => 2,
            BitmapFormat::P8 => 1,
        }
    }
}

/// One sprite within a sequence.
#[derive(Clone, Debug)]
pub struct BitmapSprite {
    pub bitmap: usize,
    pub top: i32,
    pub left: i32,
    pub bottom: i32,
    pub right: i32,
}

/// A sequence groups sub-bitmaps: a plain index range, or a sprite sheet.
#[derive(Clone, Debug)]
pub enum BitmapSequence {
    Bitmap { first: usize, count: usize },
    Sprites { sprites: Vec<BitmapSprite> },
}

/// Parameters for one sub-bitmap.
pub struct AddBitmapBitmapParameter {
    pub format: BitmapFormat,
    pub bitmap_type: BitmapType,
    pub resolution: Resolution,
    pub mipmap_count: u32,
    pub data: Vec<u8>,
}

/// Parameters for adding a bitmap: its sub-bitmaps and sequences.
pub struct AddBitmapParameter {
    pub bitmaps: Vec<AddBitmapBitmapParameter>,
    pub sequences: Vec<BitmapSequence>,
}

/// A dimension after `l` halvings, floored at one.
pub open spec fn ldim(d: nat, l: nat) -> nat
    decreases l,
{
    if l == 0 {
        if d == 0 {
            1
        } else {
            d
        }
    } else {
        let p = ldim(d, (l - 1) as nat);
        if p / 2 == 0 {
            1
        } else {
            p / 2
        }
    }
}

/// Blocks needed to cover `d` pixels.
pub open spec fn ceil_div(a: nat, b: nat) -> nat
    recommends
        b > 0,
{
    (((a + b - 1) as int) / (b as int)) as nat
}

/// Powers of two.
pub open spec fn pow2(n: nat) -> nat
    decreases n,
{
    if n == 0 {
        1
    } else {
        2 * pow2((n - 1) as nat)
    }
}

/// Floor of the base-two logarithm.
pub open spec fn floor_log2(n: nat) -> nat
    decreases n,
{
    if n <= 1 {
        0
    } else {
        1 + floor_log2(n / 2)
    }
}

proof fn lemma_floor_log2_bounds(n: nat)
    requires
        n >= 1,
    ensures
        pow2(floor_log2(n)) <= n,
        n < pow2(floor_log2(n) + 1),
    decreases n,
{
    if n > 1 {
        lemma_floor_log2_bounds(n / 2);
    }
}

impl AddBitmapBitmapParameter {
    /// Faces uploaded per mip level.
    pub open spec fn spec_faces(&self) -> nat {
        if self.bitmap_type is Cubemap {
            6
        } else {
            1
        }
    }

    /// Depth of level `l`: halves with each level for a 3D bitmap.
    pub open spec fn spec_level_depth(&self, l: nat) -> nat {
        match self.bitmap_type {
            BitmapType::Dim3D { depth } => ldim(depth as nat, l),
            _ => 1,
        }
    }

    /// Bytes of mip level `l`, all faces.
    pub open spec fn spec_level_bytes(&self, l: nat) -> nat {
        let bl = self.format.spec_block_pixel_length() as nat;
        let bw = ceil_div(ldim(self.resolution.width as nat, l), bl);
        let bh = ceil_div(ldim(self.resolution.height as nat, l), bl);
        bw * bh * self.spec_level_depth(l) * (self.format.spec_block_byte_size() as nat)
            * self.spec_faces()
    }

    /// Bytes of the first `levels` mip levels.
    pub open spec fn spec_total_bytes(&self, levels: nat) -> nat
        decreases levels,
    {
        if levels == 0 {
            0
        } else {
            self.spec_total_bytes((levels - 1) as nat) + self.spec_level_bytes(
                (levels - 1) as nat,
            )
        }
    }

    /// The largest extent the mip chain must shrink from.
    pub open spec fn spec_highest_dimension(&self) -> nat {
        let d = match self.bitmap_type {
            BitmapType::Dim3D { depth } => depth as nat,
            _ => 1,
        };
        let m = if self.resolution.width >= self.resolution.height {
            self.resolution.width as nat
        } else {
            self.resolution.height as nat
        };
        if m >= d {
            m
        } else {
            d
        }
    }

    /// How many mip levels below the base can exist.
    pub open spec fn spec_max_mipmap_count(&self) -> nat {
        let hd = self.spec_highest_dimension();
        let lg = floor_log2(hd);
        if pow2(lg) == hd {
            lg
        } else {
            lg + 1
        }
    }

    /// Everything validation checks of one sub-bitmap.
    pub open spec fn entry_valid(&self) -> bool {
        &&& self.resolution.width > 0
        &&& self.resolution.height > 0
        &&& self.data@.len() > 0
        &&& (self.bitmap_type matches BitmapType::Dim3D { depth } ==> depth > 0)
        &&& self.mipmap_count as nat <= self.spec_max_mipmap_count()
        &&& self.data@.len() == self.spec_total_bytes(self.mipmap_count as nat + 1)
    }
}

/// One sequence's references stay inside the bitmap list.
pub open spec fn sequence_valid(s: BitmapSequence, n_bitmaps: nat) -> bool {
    match s {
        BitmapSequence::Bitmap { first, count } => count == 0 || first + count <= n_bitmaps,
        BitmapSequence::Sprites { sprites } => forall|k: int|
            0 <= k < sprites@.len() ==> (#[trigger] sprites@[k].bitmap) < n_bitmaps,
    }
}

impl AddBitmapParameter {
    /// Everything `validate` checks.
    pub open spec fn valid(&self) -> bool {
        &&& forall|i: int| 0 <= i < self.sequences@.len()
            ==> sequence_valid(#[trigger] self.sequences@[i], self.bitmaps@.len() as nat)
        &&& forall|i: int| 0 <= i < self.bitmaps@.len()
            ==> (#[trigger] self.bitmaps@[i]).entry_valid()
    }

    /// Check every sequence's range and every sub-bitmap's declared shape
    /// against the bytes it carries.
    pub fn validate(&self) -> (r: MResult<()>)
        ensures
            r is Ok <==> self.valid(),
            r matches Err(e) ==> e is DataError,
    {
        let nb = self.bitmaps.len();
        let mut si: usize = 0;
        while si < self.sequences.len()
            invariant
                nb == self.bitmaps@.len(),
                forall|i: int| 0 <= i < si
                    ==> sequence_valid(#[trigger] self.sequences@[i], nb as nat),
            decreases self.sequences@.len() - si,
        {
            match &self.sequences[si] {
                BitmapSequence::Bitmap { first, count } => {
                    if *count != 0 {
                        let bad = match first.checked_add(*count) {
                            Some(end) => end > nb,
                            None => true,
                        };
                        if bad {
                            let mut m = String::new();
                            push_str(&mut m, "Sequence ");
                            push_usize(&mut m, si);
                            push_str(&mut m, " has an invalid range; only ");
                            push_usize(&mut m, nb);
                            push_str(&mut m, " bitmap(s)");
                            return Err(Error::DataError { error: m });
                        }
                    }
                },
                BitmapSequence::Sprites { sprites } => {
                    let mut sp: usize = 0;
                    while sp < sprites.len()
                        invariant
                            self.sequences@[si as int] is Sprites,
                            *sprites == self.sequences@[si as int]->Sprites_sprites,
                            si < self.sequences@.len(),
                            nb == self.bitmaps@.len(),
                            forall|k: int| 0 <= k < sp
                                ==> (#[trigger] sprites@[k].bitmap) < nb,
                        decreases sprites@.len() - sp,
                    {
                        if sprites[sp].bitmap >= nb {
                            proof {
                                assert(self.sequences@[si as int]->Sprites_sprites@[sp as int]
                                    .bitmap >= nb);
                                assert(!sequence_valid(self.sequences@[si as int], nb as nat));
                            }
                            let mut m = String::new();
                            push_str(&mut m, "Sprite ");
                            push_usize(&mut m, sp);
                            push_str(&mut m, " of sequence ");
                            push_usize(&mut m, si);
                            push_str(&mut m, " refers to a bitmap which is not a valid index");
                            return Err(Error::DataError { error: m });
                        }
                        sp = sp + 1;
                    }
                },
            }
            proof {
                assert(sequence_valid(self.sequences@[si as int], nb as nat));
            }
            si = si + 1;
        }

        let mut bi: usize = 0;
        while bi < self.bitmaps.len()
            invariant
                forall|i: int| 0 <= i < bi ==> (#[trigger] self.bitmaps@[i]).entry_valid(),
            decreases self.bitmaps@.len() - bi,
        {
            match self.check_bitmap_entry(bi) {
                Ok(()) => {},
                Err(e) => {
                    return Err(e);
                },
            }
            bi = bi + 1;
        }
        Ok(())
    }

    /// Check one sub-bitmap: nonzero extents, a plausible mipmap count, and
    /// a byte count matching the declared shape exactly.
    fn check_bitmap_entry(&self, bi: usize) -> (r: MResult<()>)
        requires
            bi < self.bitmaps@.len(),
        ensures
            r is Ok <==> self.bitmaps@[bi as int].entry_valid(),
            r matches Err(e) ==> e is DataError,
    {
        let b = &self.bitmaps[bi];
        let width = b.resolution.width;
        let height = b.resolution.height;
        if width == 0 || height == 0 {
            let mut m = String::new();
            push_str(&mut m, "Bitmap #");
            push_usize(&mut m, bi);
            push_str(&mut m, " has 0 on one or more dimensions");
            return Err(Error::DataError { error: m });
        }
        if b.data.len() == 0 {
            let mut m = String::new();
            push_str(&mut m, "Bitmap #");
            push_usize(&mut m, bi);
            push_str(&mut m, " has no pixel data");
            return Err(Error::DataError { error: m });
        }
        let depth: u32 = match b.bitmap_type {
            BitmapType::Dim3D { depth } => {
                if depth == 0 {
                    let mut m = String::new();
                    push_str(&mut m, "Bitmap #");
                    push_usize(&mut m, bi);
                    push_str(&mut m, " has a depth of 0");
                    return Err(Error::DataError { error: m });
                }
                depth
            },
            _ => 1,
        };

        let wh = if width >= height {
            width
        } else {
            height
        };
        let highest = if wh >= depth {
            wh
        } else {
            depth
        };
        proof {
            assert(highest as nat == b.spec_highest_dimension());
        }
        let lg = floor_log2_u32(highest);
        let p = pow2_u64(lg);
        proof {
            lemma_floor_log2_bounds(highest as nat);
        }
        let max_mips: u32 = if p == highest as u64 {
            lg
        } else {
            lg + 1
        };
        proof {
            assert(max_mips as nat == b.spec_max_mipmap_count());
        }
        if b.mipmap_count > max_mips {
            let mut m = String::new();
            push_str(&mut m, "Bitmap #");
            push_usize(&mut m, bi);
            push_str(&mut m, " reports a mipmap count over the highest possible count");
            return Err(Error::DataError { error: m });
        }

        let expected = expected_bytes(b);
        if (b.data.len() as u128) != expected {
            let mut m = String::new();
            push_str(&mut m, "Bitmap #");
            push_usize(&mut m, bi);
            push_str(&mut m, " has an incorrect number of bytes");
            return Err(Error::DataError { error: m });
        }
        Ok(())
    }
}

/// Floor of the base-two logarithm of a positive number.
fn floor_log2_u32(x: u32) -> (r: u32)
    requires
        x > 0,
    ensures
        r == floor_log2(x as nat),
        r < 32,
{
    let mut v: u32 = x;
    let mut l: u32 = 0;
    proof {
        assert(pow2(0) == 1);
        assert(pow2(0) * (v as nat) == v as nat) by (nonlinear_arith)
            requires pow2(0) == 1;
    }
    while v > 1
        invariant
            v >= 1,
            l < 32,
            floor_log2(x as nat) == l + floor_log2(v as nat),
            v <= x,
            pow2(l as nat) * v <= x,
            pow2(l as nat) >= 1,
        decreases v,
    {
        proof {
            assert(pow2((l + 1) as nat) == 2 * pow2(l as nat));
            assert(pow2((l + 1) as nat) * (v as nat / 2) <= pow2(l as nat) * v) by (nonlinear_arith)
                requires pow2((l + 1) as nat) == 2 * pow2(l as nat), v >= 2, pow2(l as nat) >= 1;
        }
        v = v / 2;
        l = l + 1;
        proof {
            assert(pow2(l as nat) >= 1) by {
                lemma_pow2_ge(l as nat, 0);
            }
            if l >= 32 {
                lemma_pow2_vals();
                lemma_pow2_ge(l as nat, 32);
                assert(pow2(l as nat) * v >= pow2(l as nat) * 1) by (nonlinear_arith)
                    requires v >= 1, pow2(l as nat) >= 1;
                assert(false);
            }
        }
    }
    l
}

proof fn lemma_pow2_ge(n: nat, m: nat)
    requires
        n >= m,
    ensures
        pow2(n) >= pow2(m),
    decreases n,
{
    if n > m {
        lemma_pow2_ge((n - 1) as nat, m);
        assert(pow2(n) == 2 * pow2((n - 1) as nat));
    }
}

proof fn lemma_pow2_vals()
    ensures
        pow2(31) == 0x8000_0000,
        pow2(32) == 0x1_0000_0000,
        pow2(33) == 0x2_0000_0000,
{
    assert(pow2(31) == 0x8000_0000 && pow2(32) == 0x1_0000_0000
        && pow2(33) == 0x2_0000_0000) by {
        reveal_with_fuel(pow2, 34);
    }
}

/// `2^l` for small `l`.
fn pow2_u64(l: u32) -> (r: u64)
    requires
        l < 32,
    ensures
        r == pow2(l as nat),
{
    let mut p: u64 = 1;
    let mut k: u32 = 0;
    while k < l
        invariant
            k <= l,
            l < 32,
            p == pow2(k as nat),
            p <= 0x1_0000_0000u64,
        decreases l - k,
    {
        proof {
            lemma_pow2_vals();
            lemma_pow2_ge(31, k as nat + 1);
            assert(pow2(k as nat + 1) == 2 * pow2(k as nat));
        }
        p = p * 2;
        k = k + 1;
    }
    p
}

/// The byte count the declared shape calls for: every mip level of every
/// face, in blocks of the format's size.
fn expected_bytes(b: &AddBitmapBitmapParameter) -> (r: u128)
    requires
        b.resolution.width > 0,
        b.resolution.height > 0,
        (b.bitmap_type matches BitmapType::Dim3D { depth } ==> depth > 0),
        b.mipmap_count as nat <= b.spec_max_mipmap_count(),
        b.spec_max_mipmap_count() < 33,
    ensures
        r == b.spec_total_bytes(b.mipmap_count as nat + 1),
{
    let block_len: u64 = b.format.block_pixel_length() as u64;
    let block_bytes: u64 = b.format.block_byte_size() as u64;
    let faces: u64 = match b.bitmap_type {
        BitmapType::Cubemap => 6,
        _ => 1,
    };
    let mut cw: u64 = b.resolution.width as u64;
    let mut ch: u64 = b.resolution.height as u64;
    let mut cd: u64 = match b.bitmap_type {
        BitmapType::Dim3D { depth } => depth as u64,
        _ => 1,
    };
    let mut total: u128 = 0;
    let mut l: u32 = 0;
    let levels: u32 = b.mipmap_count + 1;
    while l < levels
        invariant
            l <= levels,
            levels == b.mipmap_count + 1,
            levels <= 34,
            block_len == b.format.spec_block_pixel_length(),
            block_bytes == b.format.spec_block_byte_size(),
            1 <= block_len <= 4,
            1 <= block_bytes <= 16,
            faces == b.spec_faces(),
            1 <= faces <= 6,
            cw == ldim(b.resolution.width as nat, l as nat),
            ch == ldim(b.resolution.height as nat, l as nat),
            cd == b.spec_level_depth(l as nat),
            cw <= 0xFFFF_FFFFu64,
            ch <= 0xFFFF_FFFFu64,
            cd <= 0xFFFF_FFFFu64,
            cw >= 1,
            ch >= 1,
            cd >= 1,
            total == b.spec_total_bytes(l as nat),
            total <= (l as u128) * 0x60_0000_0000_0000_0000_0000_0000_0000u128,
        decreases levels - l,
    {
        let bw: u64 = (cw + block_len - 1) / block_len;
        let bh: u64 = (ch + block_len - 1) / block_len;
        proof {
            assert(bw == ceil_div(cw as nat, block_len as nat));
            assert(bh == ceil_div(ch as nat, block_len as nat));
            assert(bw <= 0x1_0000_0000u64 && bh <= 0x1_0000_0000u64);
            assert((bw as int) * (bh as int) <= 0x1_0000_0000_0000_0000) by (nonlinear_arith)
                requires bw <= 0x1_0000_0000u64, bh <= 0x1_0000_0000u64;
        }
        let wh: u128 = (bw as u128) * (bh as u128);
        proof {
            assert((wh as int) * (cd as int) <= 0x1_0000_0000_0000_0000_0000_0000)
                by (nonlinear_arith)
                requires wh <= 0x1_0000_0000_0000_0000u128, cd <= 0x1_0000_0000u64;
        }
        let whd: u128 = wh * (cd as u128);
        proof {
            assert((whd as int) * (block_bytes as int) * (faces as int)
                <= 0x60_0000_0000_0000_0000_0000_0000_0000) by (nonlinear_arith)
                requires whd <= 0x1_0000_0000_0000_0000_0000_0000u128,
                    block_bytes <= 16, faces <= 6, block_bytes >= 1, faces >= 1;
        }
        let level: u128 = whd * (block_bytes as u128) * (faces as u128);
        proof {
            assert(level == b.spec_level_bytes(l as nat));
        }
        total = total + level;
        cw = if cw / 2 == 0 {
            1
        } else {
            cw / 2
        };
        ch = if ch / 2 == 0 {
            1
        } else {
            ch / 2
        };
        match b.bitmap_type {
            BitmapType::Dim3D { .. } => {
                cd = if cd / 2 == 0 {
                    1
                } else {
                    cd / 2
                };
            },
            _ => {},
        }
        l = l + 1;
    }
    total
}

/// One loaded sub-bitmap; the pixel bytes stand for the backend image built
/// from them.
pub struct BitmapBitmap {
    pub format: BitmapFormat,
    pub resolution: Resolution,
    pub bitmap_type: BitmapType,
    pub data: Vec<u8>,
}

/// A loaded bitmap.
pub struct Bitmap {
    pub bitmaps: Vec<BitmapBitmap>,
    pub sequences: Vec<BitmapSequence>,
}

impl Bitmap {
    /// Validate, then keep every sub-bitmap and the sequences.
    pub fn load_from_parameters(parameter: AddBitmapParameter) -> (r: MResult<Bitmap>)
        ensures
            r is Ok <==> parameter.valid(),
            r matches Ok(b) ==> {
                &&& b.bitmaps@.len() == parameter.bitmaps@.len()
                &&& forall|i: int| 0 <= i < parameter.bitmaps@.len() ==> {
                    &&& (#[trigger] b.bitmaps@[i]).format == parameter.bitmaps@[i].format
                    &&& b.bitmaps@[i].resolution == parameter.bitmaps@[i].resolution
                    &&& b.bitmaps@[i].bitmap_type == parameter.bitmaps@[i].bitmap_type
                    &&& b.bitmaps@[i].data == parameter.bitmaps@[i].data
                }
                &&& b.sequences == parameter.sequences
            },
            r matches Err(e) ==> e is DataError,
    {
        match parameter.validate() {
            Ok(()) => {},
            Err(e) => {
                return Err(e);
            },
        }
        let mut bitmaps: Vec<BitmapBitmap> = Vec::new();
        let mut i: usize = 0;
        let n = parameter.bitmaps.len();
        let mut rest = parameter.bitmaps;
        let ghost orig = rest@;
        while i < n
            invariant
                i <= n,
                n == orig.len(),
                rest@ == orig.skip(i as int),
                bitmaps@.len() == i,
                forall|k: int| 0 <= k < i ==> {
                    &&& (#[trigger] bitmaps@[k]).format == orig[k].format
                    &&& bitmaps@[k].resolution == orig[k].resolution
                    &&& bitmaps@[k].bitmap_type == orig[k].bitmap_type
                    &&& bitmaps@[k].data == orig[k].data
                },
            decreases n - i,
        {
            let ghost prerest = rest@;
            let b = rest.remove(0);
            proof {
                assert(prerest[0] == orig[i as int]);
                assert(rest@ =~= orig.skip(i as int + 1));
            }
            bitmaps.push(BitmapBitmap {
                format: b.format,
                resolution: b.resolution,
                bitmap_type: b.bitmap_type,
                data: b.data,
            });
            i = i + 1;
        }
        Ok(Bitmap { bitmaps, sequences: parameter.sequences })
    }
}

/// Which of the four fixed fallback textures an unset slot takes.
#[derive(Copy, Clone, Debug, PartialEq, Eq, Structural)]
pub enum DefaultType {
    /// All channels zero: neutral for alpha blend, min, add and subtract.
    Null,
    /// All channels full: neutral for multiply and min.
    White,
    /// Half-gray color with full alpha: neutral for double multiply.
    Gray,
    /// A neutral normal-vector map.
    Vector,
}

impl DefaultType {
    /// The sub-bitmap of a default texture this fallback uses.
    pub open spec fn spec_index(self) -> int {
        match self {
            DefaultType::Null => 0,
            DefaultType::White => 1,
            DefaultType::Gray => 2,
            DefaultType::Vector => 3,
        }
    }

    /// The sub-bitmap of a default texture this fallback uses.
    pub fn index(self) -> (r: usize)
        ensures
            r == self.spec_index(),
    {
        match self {
            DefaultType::Null => 0,
            DefaultType::White => 1,
            DefaultType::Gray => 2,
            DefaultType::Vector => 3,
        }
    }
}

/// The three singleton default bitmaps, one per dimensionality class.
#[derive(Clone, Debug)]
pub struct DefaultBitmaps {
    pub default_2d: String,
    pub default_3d: String,
    pub default_cubemap: String,
}

} // verus!
