//! Decimal numerals and the structural paths that identify tree positions.

use vstd::prelude::*;

verus! {

/// The character that stands for one decimal digit.
pub open spec fn digit_char(d: nat) -> char {
    if d == 0 {
        '0'
    } else if d == 1 {
        '1'
    } else if d == 2 {
        '2'
    } else if d == 3 {
        '3'
    } else if d == 4 {
        '4'
    } else if d == 5 {
        '5'
    } else if d == 6 {
        '6'
    } else if d == 7 {
        '7'
    } else if d == 8 {
        '8'
    } else {
        '9'
    }
}

/// Whether `c` is one of the ten decimal digits.
pub open spec fn is_digit(c: char) -> bool {
    c == '0' || c == '1' || c == '2' || c == '3' || c == '4' || c == '5' || c == '6' || c == '7'
        || c == '8' || c == '9'
}

/// The decimal numeral of `n`: no sign, no leading zero, `"0"` for zero.
pub open spec fn decimal(n: nat) -> Seq<char>
    decreases n,
{
    if n < 10 {
        seq![digit_char(n)]
    } else {
        decimal(n / 10).push(digit_char(n % 10))
    }
}

/// The decimal numeral of a signed number: a minus sign before the numeral
/// of the magnitude when `i` is negative.
pub open spec fn signed_decimal(i: int) -> Seq<char> {
    if i < 0 {
        seq!['-'] + decimal((-i) as nat)
    } else {
        decimal(i as nat)
    }
}

/// The path of the element at sibling position `index` below `parent`,
/// discriminated by `kind`: `parent/index~kind`.
pub open spec fn child_path(parent: Seq<char>, index: nat, kind: Seq<char>) -> Seq<char> {
    parent + seq!['/'] + decimal(index) + seq!['~'] + kind
}

/// The part of a child's path that its sibling position alone decides:
/// `parent/index~`. Every path at or below that position starts with it.
pub open spec fn slot_prefix(parent: Seq<char>, index: nat) -> Seq<char> {
    parent + seq!['/'] + decimal(index) + seq!['~']
}

/// The discriminator of payload nodes.
pub open spec fn node_kind() -> Seq<char> {
    seq!['N', 'o', 'd', 'e']
}

/// The discriminator of containers.
pub open spec fn container_kind() -> Seq<char> {
    seq!['C', 'o', 'n', 't', 'a', 'i', 'n', 'e', 'r']
}

/// Every character of a decimal numeral is a digit, and there is at least one.
pub proof fn lemma_decimal_digits(n: nat)
    ensures
        decimal(n).len() >= 1,
        forall|k: int| 0 <= k < decimal(n).len() ==> is_digit(#[trigger] decimal(n)[k]),
    decreases n,
{
    if n >= 10 {
        lemma_decimal_digits(n / 10);
    }
}

/// Different numbers have different decimal numerals.
pub proof fn lemma_decimal_injective(a: nat, b: nat)
    requires
        decimal(a) == decimal(b),
    ensures
        a == b,
    decreases a,
{
    lemma_decimal_digits(a / 10);
    lemma_decimal_digits(b / 10);
    if a < 10 && b < 10 {
        assert(decimal(a)[0] == digit_char(a));
        assert(decimal(b)[0] == digit_char(b));
    } else if a < 10 {
        assert(decimal(a).len() == 1);
        assert(decimal(b).len() >= 2);
    } else if b < 10 {
        assert(decimal(b).len() == 1);
        assert(decimal(a).len() >= 2);
    } else {
        let da = decimal(a / 10);
        let db = decimal(b / 10);
        assert(decimal(a).drop_last() =~= da);
        assert(decimal(b).drop_last() =~= db);
        assert(decimal(a).last() == digit_char(a % 10));
        assert(decimal(b).last() == digit_char(b % 10));
        lemma_decimal_injective(a / 10, b / 10);
    }
}

/// A numeral followed by `~` is a prefix of another numeral followed by `~`
/// and anything only if the two numbers are the same.
pub proof fn lemma_numeral_then_tilde(a: nat, b: nat, rest: Seq<char>)
    requires
        (decimal(a) + seq!['~']).is_prefix_of(decimal(b) + seq!['~'] + rest),
    ensures
        a == b,
{
    let da = decimal(a);
    let db = decimal(b);
    let left = da + seq!['~'];
    let right = db + seq!['~'] + rest;
    lemma_decimal_digits(a);
    lemma_decimal_digits(b);
    assert(forall|k: int| 0 <= k < left.len() ==> left[k] == right[k]);
    if da.len() < db.len() {
        assert(left[da.len() as int] == '~');
        assert(right[da.len() as int] == db[da.len() as int]);
        assert(is_digit(db[da.len() as int]));
    } else if da.len() > db.len() {
        assert(left[db.len() as int] == da[db.len() as int]);
        assert(is_digit(da[db.len() as int]));
        assert(right[db.len() as int] == '~');
    } else {
        assert forall|k: int| 0 <= k < da.len() implies da[k] == db[k] by {
            assert(left[k] == da[k]);
            assert(right[k] == db[k]);
        }
        assert(da =~= db);
        lemma_decimal_injective(a, b);
    }
}

/// Below one parent, a path names its sibling position and its discriminator:
/// two children share a path only if they agree on both.
pub proof fn lemma_child_path_injective(
    parent: Seq<char>,
    i: nat,
    kind_i: Seq<char>,
    j: nat,
    kind_j: Seq<char>,
)
    requires
        child_path(parent, i, kind_i) == child_path(parent, j, kind_j),
    ensures
        i == j,
        kind_i == kind_j,
{
    let head = parent + seq!['/'];
    let a = child_path(parent, i, kind_i);
    let b = child_path(parent, j, kind_j);
    let tail_a = decimal(i) + seq!['~'] + kind_i;
    let tail_b = decimal(j) + seq!['~'] + kind_j;
    assert(a =~= head + tail_a);
    assert(b =~= head + tail_b);
    assert(tail_a =~= (head + tail_a).subrange(head.len() as int, a.len() as int));
    assert(tail_b =~= (head + tail_b).subrange(head.len() as int, b.len() as int));
    assert(tail_a == tail_b);
    assert((decimal(i) + seq!['~']).is_prefix_of(tail_b)) by {
        assert((decimal(i) + seq!['~']).is_prefix_of(tail_a));
    }
    lemma_numeral_then_tilde(i, j, kind_j);
    let numeral = decimal(i) + seq!['~'];
    assert(kind_i =~= tail_a.subrange(numeral.len() as int, tail_a.len() as int));
    assert(kind_j =~= tail_b.subrange(numeral.len() as int, tail_b.len() as int));
}

/// The paths below two different sibling positions of one parent have
/// nothing in common: no path starts with both slots.
pub proof fn lemma_slots_disjoint(parent: Seq<char>, i: nat, j: nat, path: Seq<char>)
    requires
        i != j,
    ensures
        !(slot_prefix(parent, i).is_prefix_of(path) && slot_prefix(parent, j).is_prefix_of(path)),
{
    let si = slot_prefix(parent, i);
    let sj = slot_prefix(parent, j);
    if si.is_prefix_of(path) && sj.is_prefix_of(path) {
        let head = parent + seq!['/'];
        let ni = decimal(i) + seq!['~'];
        let nj = decimal(j) + seq!['~'];
        assert(si =~= head + ni);
        assert(sj =~= head + nj);
        if si.len() <= sj.len() {
            let rest = path.subrange(sj.len() as int, path.len() as int);
            assert forall|k: int| 0 <= k < ni.len() implies ni[k] == (decimal(j) + seq!['~']
                + rest)[k] by {
                assert(ni[k] == si[head.len() + k]);
                assert(si[head.len() + k] == path[head.len() + k]);
                assert(sj[head.len() + k] == path[head.len() + k]);
                assert(sj[head.len() + k] == nj[k]);
            }
            assert(ni.is_prefix_of(decimal(j) + seq!['~'] + rest));
            lemma_numeral_then_tilde(i, j, rest);
        } else {
            let rest = path.subrange(si.len() as int, path.len() as int);
            assert forall|k: int| 0 <= k < nj.len() implies nj[k] == (decimal(i) + seq!['~']
                + rest)[k] by {
                assert(nj[k] == sj[head.len() + k]);
                assert(sj[head.len() + k] == path[head.len() + k]);
                assert(si[head.len() + k] == path[head.len() + k]);
                assert(si[head.len() + k] == ni[k]);
            }
            assert(nj.is_prefix_of(decimal(i) + seq!['~'] + rest));
            lemma_numeral_then_tilde(j, i, rest);
        }
    }
}

/// A child's path starts with its slot, is longer than its parent's path,
/// and so does every path that starts with one of its own slots.
pub proof fn lemma_child_path_below_slot(parent: Seq<char>, i: nat, kind: Seq<char>)
    ensures
        slot_prefix(parent, i).is_prefix_of(child_path(parent, i, kind)),
        child_path(parent, i, kind).len() > parent.len(),
        forall|path: Seq<char>| #[trigger]
            child_path(parent, i, kind).is_prefix_of(path) ==> slot_prefix(parent, i).is_prefix_of(
                path,
            ),
{
    let slot = slot_prefix(parent, i);
    let child = child_path(parent, i, kind);
    assert(child =~= slot + kind);
    assert(slot.is_prefix_of(child));
    assert forall|path: Seq<char>| #[trigger] child.is_prefix_of(path) implies slot.is_prefix_of(
        path,
    ) by {
        assert forall|k: int| 0 <= k < slot.len() implies slot[k] == path[k] by {
            assert(slot[k] == child[k]);
        }
    }
}


fn digit_str(d: u64) -> (s: &'static str)
    requires
        d < 10,
    ensures
        s@ == seq![digit_char(d as nat)],
{
    proof {
        reveal_strlit("0");
        reveal_strlit("1");
        reveal_strlit("2");
        reveal_strlit("3");
        reveal_strlit("4");
        reveal_strlit("5");
        reveal_strlit("6");
        reveal_strlit("7");
        reveal_strlit("8");
        reveal_strlit("9");
    }
    let s = if d == 0 {
        "0"
    } else if d == 1 {
        "1"
    } else if d == 2 {
        "2"
    } else if d == 3 {
        "3"
    } else if d == 4 {
        "4"
    } else if d == 5 {
        "5"
    } else if d == 6 {
        "6"
    } else if d == 7 {
        "7"
    } else if d == 8 {
        "8"
    } else {
        "9"
    };
    assert(s@ =~= seq![digit_char(d as nat)]);
    s
}

/// Appends the decimal numeral of `n` to `out`.
pub fn push_decimal(out: &mut String, n: u64)
    ensures
        final(out)@ == old(out)@ + decimal(n as nat),
    decreases n,
{
    if n >= 10 {
        push_decimal(out, n / 10);
    }
    out.append(digit_str(n % 10));
    assert(out@ =~= old(out)@ + decimal(n as nat));
}

/// Appends the decimal numeral of the signed number `i` to `out`.
pub fn push_signed_decimal(out: &mut String, i: i64)
    ensures
        final(out)@ == old(out)@ + signed_decimal(i as int),
{
    if i < 0 {
        proof {
            reveal_strlit("-");
        }
        out.append("-");
        let magnitude: u64 = if i == i64::MIN {
            9223372036854775808u64
        } else {
            (-i) as u64
        };
        push_decimal(out, magnitude);
        assert(out@ =~= old(out)@ + signed_decimal(i as int));
    } else {
        push_decimal(out, i as u64);
    }
}

/// The decimal numeral of `n` as a string.
pub fn decimal_string(n: u64) -> (s: String)
    ensures
        s@ == decimal(n as nat),
{
    let mut s = String::new();
    push_decimal(&mut s, n);
    assert(s@ =~= decimal(n as nat));
    s
}

/// The decimal numeral of the signed number `i` as a string.
pub fn signed_decimal_string(i: i64) -> (s: String)
    ensures
        s@ == signed_decimal(i as int),
{
    let mut s = String::new();
    push_signed_decimal(&mut s, i);
    assert(s@ =~= signed_decimal(i as int));
    s
}

/// Derives the path of the element at sibling position `index` below
/// `parent`, discriminated by `kind`.
pub fn derive_path(parent: &str, index: usize, kind: &str) -> (p: String)
    ensures
        p@ == child_path(parent@, index as nat, kind@),
{
    proof {
        reveal_strlit("/");
        reveal_strlit("~");
    }
    let mut p = String::from_str(parent);
    p.append("/");
    push_decimal(&mut p, index as u64);
    p.append("~");
    p.append(kind);
    assert(p@ =~= child_path(parent@, index as nat, kind@));
    p
}

} // verus!
