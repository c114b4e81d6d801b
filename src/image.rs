//! The disk image: each part padded to whole 512-byte sectors, one after the
//! other, and the sector counts patched into the boot sector.
use vstd::prelude::*;

use crate::boot::u16_to_u8;

verus! {

pub const SECTOR_SIZE: usize = 512;

/// Whole sectors that `n` bytes take.
pub open spec fn sectors(n: int) -> int {
    (n + 511) / 512
}

/// `f` followed by zeros up to a whole number of sectors.
pub open spec fn padded(f: Seq<u8>) -> Seq<u8> {
    f + Seq::new((sectors(f.len() as int) * 512 - f.len()) as nat, |i: int| 0u8)
}

/// The image of `parts`: each padded, in order.
pub open spec fn image_of(parts: Seq<Seq<u8>>) -> Seq<u8>
    decreases parts.len(),
{
    if parts.len() == 0 {
        Seq::empty()
    } else {
        image_of(parts.drop_last()) + padded(parts.last())
    }
}

/// Concatenates `parts`, each padded with zeros to whole sectors, and
/// returns the image with each part's sector count.
pub fn merge_kernel(parts: &Vec<Vec<u8>>) -> (r: (Vec<u8>, Vec<u16>))
    requires
        forall|i: int| 0 <= i < parts@.len() ==> #[trigger] parts@[i]@.len() <= 0xFFFF * 512,
    ensures
        r.0@ == image_of(Seq::new(parts@.len(), |i: int| parts@[i]@)),
        r.1@.len() == parts@.len(),
        forall|i: int| 0 <= i < parts@.len() ==> #[trigger] r.1@[i] == sectors(parts@[i]@.len() as int),
{
    let ghost views = Seq::new(parts@.len(), |i: int| parts@[i]@);
    let mut image: Vec<u8> = Vec::new();
    let mut counts: Vec<u16> = Vec::new();
    let mut k: usize = 0;
    while k < parts.len()
        invariant
            k <= parts@.len(),
            views == Seq::new(parts@.len(), |i: int| parts@[i]@),
            forall|i: int| 0 <= i < parts@.len() ==> #[trigger] parts@[i]@.len() <= 0xFFFF * 512,
            image@ == image_of(views.subrange(0, k as int)),
            counts@.len() == k,
            forall|i: int| 0 <= i < k ==> #[trigger] counts@[i] == sectors(parts@[i]@.len() as int),
        decreases parts@.len() - k,
    {
        let part = &parts[k];
        let n = part.len();
        let count = (n + 511) / SECTOR_SIZE;
        let ghost before = image@;
        let mut i: usize = 0;
        while i < n
            invariant
                i <= n == part@.len(),
                image@ == before + part@.subrange(0, i as int),
            decreases n - i,
        {
            image.push(part[i]);
            i = i + 1;
            assert(image@ =~= before + part@.subrange(0, i as int));
        }
        let total = count * SECTOR_SIZE;
        assert(total >= n) by (nonlinear_arith)
            requires
                count == (n + 511) / 512,
                total == count * 512,
        ;
        assert(total - n < 512) by (nonlinear_arith)
            requires
                count == (n + 511) / 512,
                total == count * 512,
        ;
        while i < total
            invariant
                n <= i <= total,
                image@ == before + part@ + Seq::new((i - n) as nat, |j: int| 0u8),
            decreases total - i,
        {
            image.push(0);
            i = i + 1;
            assert(image@ =~= before + part@ + Seq::new((i - n) as nat, |j: int| 0u8));
        }
        proof {
            assert(part@.subrange(0, n as int) =~= part@);
            assert(views.subrange(0, k as int + 1).drop_last() =~= views.subrange(0, k as int));
            assert(views.subrange(0, k as int + 1).last() == part@);
            assert(image@ =~= image_of(views.subrange(0, k as int + 1)));
        }
        counts.push(count as u16);
        k = k + 1;
    }
    assert(views.subrange(0, parts@.len() as int) =~= views);
    (image, counts)
}

/// The two header writes of the boot sector: offset 5 gets the sector count
/// of both kernels, offset 7 that of the 32-bit one, each little-endian.
pub fn sector_count_header(kernel32_sectors: u16, kernel64_sectors: u16) -> (r: [(u64, [u8; 2]); 2])
    requires
        kernel32_sectors + kernel64_sectors <= u16::MAX,
    ensures
        r[0].0 == 5 && r[0].1[0] + r[0].1[1] * 0x100 == kernel32_sectors + kernel64_sectors,
        r[1].0 == 7 && r[1].1[0] + r[1].1[1] * 0x100 == kernel32_sectors,
{
    let total = u16_to_u8(kernel32_sectors + kernel64_sectors);
    let first = u16_to_u8(kernel32_sectors);
    [(5, total), (7, first)]
}

} // verus!
