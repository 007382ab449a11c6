//! Sizes and counts as people read them.

use crate::utils::text::{decimal, push_decimal};
use vstd::prelude::*;
use vstd::string::*;

verus! {

/// 1024 to the power `k`, for the units that sizes are shown in.
pub open spec fn unit_size(k: nat) -> nat {
    if k == 0 {
        1
    } else if k == 1 {
        0x400
    } else if k == 2 {
        0x10_0000
    } else if k == 3 {
        0x4000_0000
    } else {
        0x100_0000_0000
    }
}

/// The unit that a size is shown in: the largest of B, KB, MB, GB and TB
/// that the size reaches.
pub open spec fn unit_index(bytes: u64) -> nat {
    if bytes < 0x400 {
        0
    } else if bytes < 0x10_0000 {
        1
    } else if bytes < 0x4000_0000 {
        2
    } else if bytes < 0x100_0000_0000 {
        3
    } else {
        4
    }
}

/// The name of a unit.
pub open spec fn unit_name(k: nat) -> Seq<char> {
    if k == 0 {
        "B"@
    } else if k == 1 {
        "KB"@
    } else if k == 2 {
        "MB"@
    } else if k == 3 {
        "GB"@
    } else {
        "TB"@
    }
}

/// A fraction rounded to the nearest whole number; a fraction that lies
/// half-way between two goes to the even one.
pub open spec fn round_half_even(num: nat, den: nat) -> nat
    recommends
        den > 0,
{
    let q = num / den;
    let r = num % den;
    if 2 * r < den {
        q
    } else if 2 * r > den {
        q + 1
    } else if q % 2 == 0 {
        q
    } else {
        q + 1
    }
}

/// The distance between the sizes that 53 binary digits can tell apart:
/// one up to 2^53, and twice as much with every binary digit more.
pub open spec fn grain(bytes: u64) -> nat {
    if bytes < 0x20_0000_0000_0000 {
        1
    } else if bytes < 0x40_0000_0000_0000 {
        2
    } else if bytes < 0x80_0000_0000_0000 {
        4
    } else if bytes < 0x100_0000_0000_0000 {
        8
    } else if bytes < 0x200_0000_0000_0000 {
        16
    } else if bytes < 0x400_0000_0000_0000 {
        32
    } else if bytes < 0x800_0000_0000_0000 {
        64
    } else if bytes < 0x1000_0000_0000_0000 {
        128
    } else if bytes < 0x2000_0000_0000_0000 {
        256
    } else if bytes < 0x4000_0000_0000_0000 {
        512
    } else if bytes < 0x8000_0000_0000_0000 {
        1024
    } else {
        2048
    }
}

/// A size as 53 binary digits hold it: sizes below 2^53 as they are, larger
/// ones rounded to the nearest that 53 digits can tell apart.
pub open spec fn coarse(bytes: u64) -> nat {
    round_half_even(bytes as nat, grain(bytes)) * grain(bytes)
}

/// A size in tenths of its unit: the size as 53 binary digits hold it,
/// divided by the unit and rounded to tenths.
pub open spec fn tenths(bytes: u64) -> nat {
    round_half_even(coarse(bytes) * 10, unit_size(unit_index(bytes)))
}

/// A size as it is shown: below 1024 the number of bytes and `B`; from there
/// on the size in its unit with one decimal, and the unit's name.
pub open spec fn human_size_text(bytes: u64) -> Seq<char> {
    if bytes < 0x400 {
        decimal(bytes as nat) + " B"@
    } else {
        decimal(tenths(bytes) / 10) + "."@ + decimal(tenths(bytes) % 10) + " "@ + unit_name(
            unit_index(bytes),
        )
    }
}

/// Writes a size behind `out` as [`human_size_text`] shows it.
pub fn push_human_size(out: &mut String, bytes: u64)
    ensures
        final(out)@ == old(out)@ + human_size_text(bytes),
{
    if bytes < 0x400 {
        push_decimal(out, bytes);
        out.append(" B");
        assert(out@ =~= old(out)@ + human_size_text(bytes));
        return ;
    }
    let (den, name): (u128, &'static str) = if bytes < 0x10_0000 {
        (0x400, "KB")
    } else if bytes < 0x4000_0000 {
        (0x10_0000, "MB")
    } else if bytes < 0x100_0000_0000 {
        (0x4000_0000, "GB")
    } else {
        (0x100_0000_0000, "TB")
    };
    let step: u128 = if bytes < 0x20_0000_0000_0000 {
        1
    } else if bytes < 0x40_0000_0000_0000 {
        2
    } else if bytes < 0x80_0000_0000_0000 {
        4
    } else if bytes < 0x100_0000_0000_0000 {
        8
    } else if bytes < 0x200_0000_0000_0000 {
        16
    } else if bytes < 0x400_0000_0000_0000 {
        32
    } else if bytes < 0x800_0000_0000_0000 {
        64
    } else if bytes < 0x1000_0000_0000_0000 {
        128
    } else if bytes < 0x2000_0000_0000_0000 {
        256
    } else if bytes < 0x4000_0000_0000_0000 {
        512
    } else if bytes < 0x8000_0000_0000_0000 {
        1024
    } else {
        2048
    };
    let whole: u128 = (bytes as u128) / step;
    let rest: u128 = (bytes as u128) % step;
    let steps: u128 = if 2 * rest < step {
        whole
    } else if 2 * rest > step {
        whole + 1
    } else if whole % 2 == 0 {
        whole
    } else {
        whole + 1
    };
    assert(steps == round_half_even(bytes as nat, grain(bytes)));
    assert(steps * step <= 0x1_0000_0000_0000_0800);
    let num: u128 = steps * step * 10;
    let q: u128 = num / den;
    let r: u128 = num % den;
    let t: u128 = if 2 * r < den {
        q
    } else if 2 * r > den {
        q + 1
    } else if q % 2 == 0 {
        q
    } else {
        q + 1
    };
    assert(t == tenths(bytes));
    assert(t / 10 <= u64::MAX);
    push_decimal(out, (t / 10) as u64);
    out.append(".");
    push_decimal(out, (t % 10) as u64);
    out.append(" ");
    out.append(name);
    assert(out@ =~= old(out)@ + human_size_text(bytes));
}

/// A size as people read it: `512 B`, `1.5 KB`, `4.8 MB`.
pub fn human_size(bytes: u64) -> (r: String)
    ensures
        r@ == human_size_text(bytes),
{
    let mut out = String::new();
    push_human_size(&mut out, bytes);
    assert(out@ =~= human_size_text(bytes));
    out
}

/// What a synchronisation is about to do, in numbers.
#[derive(Debug, Clone, Copy, PartialEq, Eq, Structural)]
pub struct SyncStats {
    pub upload_count: usize,
    pub delete_count: usize,
    pub upload_bytes: u64,
    pub delete_bytes: u64,
}

impl Default for SyncStats {
    fn default() -> (r: Self)
        ensures
            r == (SyncStats { upload_count: 0, delete_count: 0, upload_bytes: 0, delete_bytes: 0 }),
    {
        SyncStats { upload_count: 0, delete_count: 0, upload_bytes: 0, delete_bytes: 0 }
    }
}

impl SyncStats {
    pub fn new(upload_count: usize, delete_count: usize, upload_bytes: u64, delete_bytes: u64) -> (r:
        Self)
        ensures
            r == (SyncStats { upload_count, delete_count, upload_bytes, delete_bytes }),
    {
        SyncStats { upload_count, delete_count, upload_bytes, delete_bytes }
    }

    /// Whether there is anything to upload or to delete.
    pub fn has_changes(&self) -> (r: bool)
        ensures
            r == (self.upload_count > 0 || self.delete_count > 0),
    {
        self.upload_count > 0 || self.delete_count > 0
    }

    /// The summary of these numbers, as [`SyncStats::format_summary`] writes it.
    pub open spec fn summary(self) -> Seq<char> {
        decimal(self.upload_count as nat) + " upload(s), "@ + decimal(self.delete_count as nat)
            + " delete(s) (+"@ + human_size_text(self.upload_bytes) + ", -"@ + human_size_text(
            self.delete_bytes,
        ) + ")"@
    }

    /// One line that says how many files are uploaded and deleted, and how
    /// many bytes that is.
    pub fn format_summary(&self) -> (r: String)
        ensures
            r@ == self.summary(),
    {
        let mut out = String::new();
        push_decimal(&mut out, self.upload_count as u64);
        out.append(" upload(s), ");
        push_decimal(&mut out, self.delete_count as u64);
        out.append(" delete(s) (+");
        push_human_size(&mut out, self.upload_bytes);
        out.append(", -");
        push_human_size(&mut out, self.delete_bytes);
        out.append(")");
        assert(out@ =~= self.summary());
        out
    }
}

} // verus!
