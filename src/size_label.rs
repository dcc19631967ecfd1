use vstd::prelude::*;
use vstd::string::*;

verus! {

/// One kibibyte: the step between the units of a size label.
pub const KIB: usize = 1024;

/// One mebibyte.
pub const MIB: usize = 1048576;

/// One gibibyte.
pub const GIB: usize = 1073741824;

/// The character of a decimal digit `d < 10`.
pub open spec fn digit_char(d: nat) -> char {
    seq!['0', '1', '2', '3', '4', '5', '6', '7', '8', '9'][d as int]
}

/// The decimal notation of `n`, most significant digit first, without
/// leading zeros.
pub open spec fn decimal(n: nat) -> Seq<char>
    decreases n,
{
    if n < 10 {
        seq![digit_char(n)]
    } else {
        decimal(n / 10) + seq![digit_char(n % 10)]
    }
}

/// The unit a byte count is labelled in: 0 bytes, 1 kilobytes, 2 megabytes,
/// 3 gigabytes. A tier is taken while the count is at most its threshold.
pub open spec fn label_tier(n: nat) -> nat {
    if n <= KIB {
        0
    } else if n <= MIB {
        1
    } else if n <= GIB {
        2
    } else {
        3
    }
}

/// The number of bytes in one unit of a tier.
pub open spec fn tier_unit(t: nat) -> nat {
    if t == 0 {
        1
    } else if t == 1 {
        KIB as nat
    } else if t == 2 {
        MIB as nat
    } else {
        GIB as nat
    }
}

/// The suffix that names the unit of a tier.
pub open spec fn tier_suffix(t: nat) -> Seq<char> {
    if t == 0 {
        seq!['B']
    } else if t == 1 {
        seq!['K', 'B']
    } else if t == 2 {
        seq!['M', 'B']
    } else {
        seq!['G', 'B']
    }
}

/// Whether a byte count lies in the bucket of a tier: up to 1024 for bytes,
/// then `(1024, 1024^2]`, `(1024^2, 1024^3]` and above `1024^3`.
pub open spec fn in_bucket(t: nat, x: nat) -> bool {
    if t == 0 {
        x <= KIB
    } else if t == 1 {
        KIB < x <= MIB
    } else if t == 2 {
        MIB < x <= GIB
    } else {
        GIB < x
    }
}

/// The number printed in the label of `n`: whole units, rounded down.
pub open spec fn label_value(n: nat) -> nat {
    n / tier_unit(label_tier(n))
}

/// The label of a byte count: its value in whole units, then the unit.
pub open spec fn size_label(n: nat) -> Seq<char> {
    decimal(label_value(n)) + tier_suffix(label_tier(n))
}

/// The label of `n` names the tier whose bucket holds `n`, and the printed
/// value is `n` in whole units of that tier, rounded down.
pub proof fn lemma_label_brackets_size(n: nat)
    ensures
        size_label(n) == decimal(label_value(n)) + tier_suffix(label_tier(n)),
        in_bucket(label_tier(n), n),
        label_value(n) * tier_unit(label_tier(n)) <= n,
        n < (label_value(n) + 1) * tier_unit(label_tier(n)),
{
    let u = tier_unit(label_tier(n));
    assert(u > 0);
    let v = n / u;
    assert(v * u <= n && n < (v + 1) * u) by (nonlinear_arith)
        requires
            u > 0,
            v == n / u,
    ;
}

/// The printed value, multiplied back by its unit, lies in the bucket that
/// selected the unit. Rounding down takes a count just above a threshold
/// (from one unit up to, not including, two units) back onto the threshold,
/// so those counts are left out.
pub proof fn lemma_label_value_in_bucket(n: nat)
    requires
        !(KIB < n < 2 * KIB),
        !(MIB < n < 2 * MIB),
        !(GIB < n < 2 * GIB),
    ensures
        in_bucket(label_tier(n), label_value(n) * tier_unit(label_tier(n))),
{
    lemma_label_brackets_size(n);
    let u = tier_unit(label_tier(n));
    let v = label_value(n);
    if label_tier(n) > 0 {
        assert(2 * u <= n);
        assert(2 * u <= v * u) by (nonlinear_arith)
            requires
                u > 0,
                v == n / u,
                2 * u <= n,
        ;
    }
}

/// The text of one digit.
fn digit_text(d: usize) -> (r: &'static str)
    requires
        d < 10,
    ensures
        r@ == seq![digit_char(d as nat)],
{
    proof {
        reveal_strlit("0");
        reveal_strlit("1");
        reveal_strlit("2");
        reveal_strlit("3");
        reveal_strlit("4");
        reveal_strlit("5");
        reveal_strlit("6");
        reveal_strlit("7");
        reveal_strlit("8");
        reveal_strlit("9");
    }
    match d {
        0 => "0",
        1 => "1",
        2 => "2",
        3 => "3",
        4 => "4",
        5 => "5",
        6 => "6",
        7 => "7",
        8 => "8",
        _ => "9",
    }
}

/// The decimal notation of `n`.
pub fn decimal_text(n: usize) -> (r: String)
    ensures
        r@ == decimal(n as nat),
    decreases n,
{
    if n < 10 {
        String::from_str(digit_text(n))
    } else {
        let mut s = decimal_text(n / 10);
        s.append(digit_text(n % 10));
        s
    }
}

/// A human-readable label for a byte count: `1024` gives `1024B`, `1025`
/// gives `1KB`, `1048576` gives `1024KB` and `1048577` gives `1MB`.
pub fn pretty_print_size(size: usize) -> (r: String)
    ensures
        r@ == size_label(size as nat),
{
    proof {
        reveal_strlit("B");
        reveal_strlit("KB");
        reveal_strlit("MB");
        reveal_strlit("GB");
    }
    if size <= KIB {
        decimal_text(size).concat("B")
    } else if size <= MIB {
        decimal_text(size / KIB).concat("KB")
    } else if size <= GIB {
        decimal_text(size / MIB).concat("MB")
    } else {
        decimal_text(size / GIB).concat("GB")
    }
}

} // verus!
