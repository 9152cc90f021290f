//! The encoder: pure lookup of the fixed-width bit strings for symbolic
//! instruction fields (destination, computation and jump mnemonics), and the
//! 16-bit binary encoding of address values.

use vstd::prelude::*;
use vstd::string::*;

use crate::text::str_eq;

verus! {

/// The bit character for `b`.
pub open spec fn bit_char(b: bool) -> char {
    if b {
        '1'
    } else {
        '0'
    }
}

/// A destination mnemonic is any ordering of a subset of the letters
/// `A`, `D`, `M`, each at most once.
pub open spec fn spec_dest_valid(m: Seq<char>) -> bool {
    &&& forall|k: int| 0 <= k < m.len() ==> (m[k] == 'A' || m[k] == 'D' || m[k] == 'M')
    &&& forall|k1: int, k2: int| 0 <= k1 < k2 < m.len() ==> m[k1] != m[k2]
}

/// The 3-bit destination field: one bit each for `A`, `D` and `M`, in that
/// order, set exactly when the letter occurs in the mnemonic.
pub open spec fn spec_dest_code(m: Seq<char>) -> Seq<char> {
    seq![bit_char(m.contains('A')), bit_char(m.contains('D')), bit_char(m.contains('M'))]
}

/// The 7-bit computation field for the closed set of 28 computation
/// mnemonics, or `None` for any other text.
pub open spec fn spec_comp_code(m: Seq<char>) -> Option<Seq<char>> {
    if m == "0"@ {
        Some("0101010"@)
    } else if m == "1"@ {
        Some("0111111"@)
    } else if m == "-1"@ {
        Some("0111010"@)
    } else if m == "D"@ {
        Some("0001100"@)
    } else if m == "A"@ {
        Some("0110000"@)
    } else if m == "!D"@ {
        Some("0001101"@)
    } else if m == "!A"@ {
        Some("0110001"@)
    } else if m == "D+1"@ {
        Some("0011111"@)
    } else if m == "A+1"@ {
        Some("0110111"@)
    } else if m == "D-1"@ {
        Some("0001110"@)
    } else if m == "A-1"@ {
        Some("0110010"@)
    } else if m == "D+A"@ {
        Some("0000010"@)
    } else if m == "A+D"@ {
        Some("0000010"@)
    } else if m == "D-A"@ {
        Some("0010011"@)
    } else if m == "A-D"@ {
        Some("0000111"@)
    } else if m == "D&A"@ {
        Some("0000000"@)
    } else if m == "D|A"@ {
        Some("0010101"@)
    } else if m == "M"@ {
        Some("1110000"@)
    } else if m == "!M"@ {
        Some("1110001"@)
    } else if m == "-M"@ {
        Some("1110011"@)
    } else if m == "M+1"@ {
        Some("1110111"@)
    } else if m == "M-1"@ {
        Some("1110010"@)
    } else if m == "D+M"@ {
        Some("1000010"@)
    } else if m == "M+D"@ {
        Some("1000010"@)
    } else if m == "D-M"@ {
        Some("1010011"@)
    } else if m == "M-D"@ {
        Some("1000111"@)
    } else if m == "D&M"@ {
        Some("1000000"@)
    } else if m == "D|M"@ {
        Some("1010101"@)
    } else {
        None
    }
}

/// The 3-bit jump field for the empty mnemonic and the 7 jump mnemonics,
/// or `None` for any other text.
pub open spec fn spec_jump_code(m: Seq<char>) -> Option<Seq<char>> {
    if m == ""@ {
        Some("000"@)
    } else if m == "JGT"@ {
        Some("001"@)
    } else if m == "JEQ"@ {
        Some("010"@)
    } else if m == "JGE"@ {
        Some("011"@)
    } else if m == "JLT"@ {
        Some("100"@)
    } else if m == "JNE"@ {
        Some("101"@)
    } else if m == "JLE"@ {
        Some("110"@)
    } else if m == "JMP"@ {
        Some("111"@)
    } else {
        None
    }
}

/// The binary digits of `v`, most significant first; empty for 0.
pub open spec fn spec_bin_digits(v: nat) -> Seq<char>
    decreases v,
{
    if v == 0 {
        Seq::empty()
    } else {
        spec_bin_digits(v / 2).push(bit_char(v % 2 == 1))
    }
}

/// The binary numeral of `v`, left-padded with zeros to at least 16
/// characters.
pub open spec fn spec_bin16(v: nat) -> Seq<char> {
    let d = spec_bin_digits(v);
    if d.len() >= 16 {
        d
    } else {
        Seq::new((16 - d.len()) as nat, |i: int| '0') + d
    }
}

/// Appends the binary digits of `v` to `out`.
fn push_bin_digits(v: usize, out: &mut String)
    ensures
        final(out)@ == old(out)@ + spec_bin_digits(v as nat),
    decreases v,
{
    if v == 0 {
        proof {
            assert(old(out)@ + spec_bin_digits(0) =~= old(out)@);
        }
    } else {
        push_bin_digits(v / 2, out);
        if v % 2 == 1 {
            out.append("1");
        } else {
            out.append("0");
        }
        proof {
            reveal_strlit("0");
            reveal_strlit("1");
            assert(out@ =~= old(out)@ + spec_bin_digits(v as nat));
        }
    }
}

/// The binary numeral of `v` has at most one digit per unit of `v`.
proof fn lemma_bin_digits_len(v: nat)
    ensures
        spec_bin_digits(v).len() <= v,
    decreases v,
{
    if v > 0 {
        lemma_bin_digits_len(v / 2);
    }
}

/// Encodes `v` as a binary numeral, left-padded with zeros to at least 16
/// characters.
pub fn bin16(v: usize) -> (r: String)
    ensures
        r@ == spec_bin16(v as nat),
{
    proof {
        lemma_bin_digits_len(v as nat);
    }
    let mut x = v;
    let mut n: usize = 0;
    while x != 0
        invariant
            n + spec_bin_digits(x as nat).len() == spec_bin_digits(v as nat).len(),
            spec_bin_digits(v as nat).len() <= usize::MAX,
        decreases x,
    {
        x = x / 2;
        n = n + 1;
    }
    let mut out = String::new();
    let mut p = n;
    while p < 16
        invariant
            n <= p,
            p <= 16 || p == n,
            out@ =~= Seq::new((p - n) as nat, |i: int| '0'),
        decreases 16 - p,
    {
        out.append("0");
        proof {
            reveal_strlit("0");
            assert(out@ =~= Seq::new((p + 1 - n) as nat, |i: int| '0'));
        }
        p = p + 1;
    }
    push_bin_digits(v, &mut out);
    proof {
        assert(out@ =~= spec_bin16(v as nat));
    }
    out
}

/// The encoder for the three symbolic fields of a compute instruction.
pub struct Code;

impl Code {
    /// Encodes a destination mnemonic, or `None` when it is not an
    /// ordering of a subset of `A`, `D`, `M`.
    pub fn try_dest(m: &str) -> (r: Option<String>)
        ensures
            match r {
                Some(out) => spec_dest_valid(m@) && out@ == spec_dest_code(m@),
                None => !spec_dest_valid(m@),
            },
    {
        let n = m.unicode_len();
        let mut has_a = false;
        let mut has_d = false;
        let mut has_m = false;
        let mut i: usize = 0;
        while i < n
            invariant
                m@.len() == n,
                i <= n,
                has_a == (exists|k: int| 0 <= k < i && m@[k] == 'A'),
                has_d == (exists|k: int| 0 <= k < i && m@[k] == 'D'),
                has_m == (exists|k: int| 0 <= k < i && m@[k] == 'M'),
                forall|k: int| 0 <= k < i ==> (m@[k] == 'A' || m@[k] == 'D' || m@[k] == 'M'),
                forall|k1: int, k2: int| 0 <= k1 < k2 < i ==> m@[k1] != m@[k2],
            decreases n - i,
        {
            let c = m.get_char(i);
            if c == 'A' {
                if has_a {
                    return None;
                }
                has_a = true;
            } else if c == 'D' {
                if has_d {
                    return None;
                }
                has_d = true;
            } else if c == 'M' {
                if has_m {
                    return None;
                }
                has_m = true;
            } else {
                return None;
            }
            i = i + 1;
        }
        let mut out = String::new();
        if has_a {
            out.append("1");
        } else {
            out.append("0");
        }
        if has_d {
            out.append("1");
        } else {
            out.append("0");
        }
        if has_m {
            out.append("1");
        } else {
            out.append("0");
        }
        proof {
            reveal_strlit("0");
            reveal_strlit("1");
            assert(has_a == m@.contains('A'));
            assert(has_d == m@.contains('D'));
            assert(has_m == m@.contains('M'));
            assert(out@ =~= spec_dest_code(m@));
        }
        Some(out)
    }

    /// Encodes a destination mnemonic.
    pub fn dest(m: &str) -> (r: String)
        requires
            spec_dest_valid(m@),
        ensures
            r@ == spec_dest_code(m@),
    {
        Self::try_dest(m).unwrap()
    }

    /// Encodes a computation mnemonic, or `None` when it is not one of
    /// the 28 computations of the instruction set.
    pub fn try_comp(m: &str) -> (r: Option<String>)
        ensures
            match r {
                Some(out) => Some(out@) == spec_comp_code(m@),
                None => spec_comp_code(m@) is None,
            },
    {
        if str_eq(m, "0") {
            Some("0101010".to_owned())
        } else if str_eq(m, "1") {
            Some("0111111".to_owned())
        } else if str_eq(m, "-1") {
            Some("0111010".to_owned())
        } else if str_eq(m, "D") {
            Some("0001100".to_owned())
        } else if str_eq(m, "A") {
            Some("0110000".to_owned())
        } else if str_eq(m, "!D") {
            Some("0001101".to_owned())
        } else if str_eq(m, "!A") {
            Some("0110001".to_owned())
        } else if str_eq(m, "D+1") {
            Some("0011111".to_owned())
        } else if str_eq(m, "A+1") {
            Some("0110111".to_owned())
        } else if str_eq(m, "D-1") {
            Some("0001110".to_owned())
        } else if str_eq(m, "A-1") {
            Some("0110010".to_owned())
        } else if str_eq(m, "D+A") {
            Some("0000010".to_owned())
        } else if str_eq(m, "A+D") {
            Some("0000010".to_owned())
        } else if str_eq(m, "D-A") {
            Some("0010011".to_owned())
        } else if str_eq(m, "A-D") {
            Some("0000111".to_owned())
        } else if str_eq(m, "D&A") {
            Some("0000000".to_owned())
        } else if str_eq(m, "D|A") {
            Some("0010101".to_owned())
        } else if str_eq(m, "M") {
            Some("1110000".to_owned())
        } else if str_eq(m, "!M") {
            Some("1110001".to_owned())
        } else if str_eq(m, "-M") {
            Some("1110011".to_owned())
        } else if str_eq(m, "M+1") {
            Some("1110111".to_owned())
        } else if str_eq(m, "M-1") {
            Some("1110010".to_owned())
        } else if str_eq(m, "D+M") {
            Some("1000010".to_owned())
        } else if str_eq(m, "M+D") {
            Some("1000010".to_owned())
        } else if str_eq(m, "D-M") {
            Some("1010011".to_owned())
        } else if str_eq(m, "M-D") {
            Some("1000111".to_owned())
        } else if str_eq(m, "D&M") {
            Some("1000000".to_owned())
        } else if str_eq(m, "D|M") {
            Some("1010101".to_owned())
        } else {
            None
        }
    }

    /// Encodes a computation mnemonic.
    pub fn comp(m: &str) -> (r: String)
        requires
            spec_comp_code(m@) is Some,
        ensures
            Some(r@) == spec_comp_code(m@),
    {
        Self::try_comp(m).unwrap()
    }

    /// Encodes a jump mnemonic, or `None` when it is neither empty nor
    /// one of the 7 jump conditions.
    pub fn try_jump(m: &str) -> (r: Option<String>)
        ensures
            match r {
                Some(out) => Some(out@) == spec_jump_code(m@),
                None => spec_jump_code(m@) is None,
            },
    {
        if str_eq(m, "") {
            Some("000".to_owned())
        } else if str_eq(m, "JGT") {
            Some("001".to_owned())
        } else if str_eq(m, "JEQ") {
            Some("010".to_owned())
        } else if str_eq(m, "JGE") {
            Some("011".to_owned())
        } else if str_eq(m, "JLT") {
            Some("100".to_owned())
        } else if str_eq(m, "JNE") {
            Some("101".to_owned())
        } else if str_eq(m, "JLE") {
            Some("110".to_owned())
        } else if str_eq(m, "JMP") {
            Some("111".to_owned())
        } else {
            None
        }
    }

    /// Encodes a jump mnemonic.
    pub fn jump(m: &str) -> (r: String)
        requires
            spec_jump_code(m@) is Some,
        ensures
            Some(r@) == spec_jump_code(m@),
    {
        Self::try_jump(m).unwrap()
    }
}

/// The destination field depends only on which letters the mnemonic
/// holds, never on their order: two valid mnemonics over the same letters
/// encode identically.
pub proof fn lemma_dest_order_independent(m1: Seq<char>, m2: Seq<char>)
    requires
        spec_dest_valid(m1),
        spec_dest_valid(m2),
        m1.to_multiset() == m2.to_multiset(),
    ensures
        spec_dest_code(m1) == spec_dest_code(m2),
{
    m1.to_multiset_ensures();
    m2.to_multiset_ensures();
    assert(m1.to_multiset().count('A') == m2.to_multiset().count('A'));
    assert(m1.to_multiset().count('D') == m2.to_multiset().count('D'));
    assert(m1.to_multiset().count('M') == m2.to_multiset().count('M'));
    assert(m1.contains('A') <==> m1.to_multiset().count('A') > 0);
    assert(m2.contains('A') <==> m2.to_multiset().count('A') > 0);
    assert(m1.contains('D') <==> m1.to_multiset().count('D') > 0);
    assert(m2.contains('D') <==> m2.to_multiset().count('D') > 0);
    assert(m1.contains('M') <==> m1.to_multiset().count('M') > 0);
    assert(m2.contains('M') <==> m2.to_multiset().count('M') > 0);
}

} // verus!
