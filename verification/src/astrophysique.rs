//! The part of a star system that does not depend on floating point: its
//! spectral class type and its name, which follows from its position alone.

use vstd::prelude::*;

verus! {

/// The spectral classes of stars, from the hottest and rarest (O) to the
/// coolest and most common (M, red dwarfs).
#[derive(Debug, Clone, Copy, PartialEq, Eq, Structural)]
pub enum SpectralClass {
    O,
    B,
    A,
    F,
    G,
    K,
    M,
}

/// Number of name prefixes.
pub const PREFIX_COUNT: usize = 6;

/// Modulus of the numeric part of a name.
pub const SUFFIX_MODULUS: i32 = 9999;

/// The name prefix number `i`.
pub open spec fn prefix_name(i: int) -> Seq<char> {
    if i == 0 {
        "Kepler"@
    } else if i == 1 {
        "Gliese"@
    } else if i == 2 {
        "Trappist"@
    } else if i == 3 {
        "Wolf"@
    } else if i == 4 {
        "Barnard"@
    } else {
        "Sirius"@
    }
}

/// The absolute value of an integer.
pub open spec fn abs(v: int) -> int {
    if v < 0 {
        -v
    } else {
        v
    }
}

/// Which prefix the star of the sector `(x, y)` is named with.
pub open spec fn name_prefix_index(x: int, y: int) -> int {
    (abs(x) + abs(y)) % 6
}

/// The numeric part of the name of the star of the sector `(x, y)`.
pub open spec fn name_suffix(x: int, y: int) -> int {
    (abs(x) * 73 + abs(y) * 37) % 9999
}

/// The decimal digit `d` as a character.
pub open spec fn digit_char(d: int) -> char {
    (d + 48) as char
}

/// The decimal writing of `n`, without leading zeros.
pub open spec fn decimal(n: nat) -> Seq<char>
    decreases n,
{
    if n < 10 {
        seq![digit_char(n as int)]
    } else {
        decimal(n / 10).push(digit_char((n % 10) as int))
    }
}

/// The name of the star of the sector `(x, y)`: a prefix, a hyphen and a
/// number, e.g. "Wolf-1665".
pub open spec fn stellar_name_of(x: int, y: int) -> Seq<char> {
    prefix_name(name_prefix_index(x, y)) + seq!['-'] + decimal(name_suffix(x, y) as nat)
}

/// The name prefix number `i`, as text.
fn prefix_str(i: usize) -> (s: &'static str)
    requires
        i < PREFIX_COUNT,
    ensures
        s@ == prefix_name(i as int),
{
    if i == 0 {
        "Kepler"
    } else if i == 1 {
        "Gliese"
    } else if i == 2 {
        "Trappist"
    } else if i == 3 {
        "Wolf"
    } else if i == 4 {
        "Barnard"
    } else {
        "Sirius"
    }
}

/// The decimal digit `d`, as text.
fn digit_str(d: u32) -> (s: &'static str)
    requires
        d < 10,
    ensures
        s@ == seq![digit_char(d as int)],
{
    if d == 0 {
        proof { reveal_strlit("0"); }
        "0"
    } else if d == 1 {
        proof { reveal_strlit("1"); }
        "1"
    } else if d == 2 {
        proof { reveal_strlit("2"); }
        "2"
    } else if d == 3 {
        proof { reveal_strlit("3"); }
        "3"
    } else if d == 4 {
        proof { reveal_strlit("4"); }
        "4"
    } else if d == 5 {
        proof { reveal_strlit("5"); }
        "5"
    } else if d == 6 {
        proof { reveal_strlit("6"); }
        "6"
    } else if d == 7 {
        proof { reveal_strlit("7"); }
        "7"
    } else if d == 8 {
        proof { reveal_strlit("8"); }
        "8"
    } else {
        proof { reveal_strlit("9"); }
        "9"
    }
}

/// Appends the decimal writing of `n` to `s`.
fn push_decimal(s: &mut String, n: u32)
    ensures
        final(s)@ == old(s)@ + decimal(n as nat),
    decreases n,
{
    if n >= 10 {
        push_decimal(s, n / 10);
    }
    let ghost mid = s@;
    s.append(digit_str(n % 10));
    proof {
        if n < 10 {
            assert(decimal(n as nat) == seq![digit_char(n as int)]);
        } else {
            assert(decimal(n as nat) == decimal((n / 10) as nat).push(digit_char((n % 10) as int)));
        }
    }
}

/// The name of the star of the sector `(x, y)`. It depends on the absolute
/// values of the coordinates only.
pub fn stellar_name(x: i32, y: i32) -> (name: String)
    requires
        x != i32::MIN,
        y != i32::MIN,
        abs(x as int) * 73 + abs(y as int) * 37 <= i32::MAX,
    ensures
        name@ == stellar_name_of(x as int, y as int),
{
    let ax: i32 = if x < 0 { -x } else { x };
    let ay: i32 = if y < 0 { -y } else { y };
    let index = ((ax + ay) as usize) % PREFIX_COUNT;
    let suffix = (ax * 73 + ay * 37) % SUFFIX_MODULUS;
    let mut name = String::from_str(prefix_str(index));
    proof { reveal_strlit("-"); }
    name.append("-");
    push_decimal(&mut name, suffix as u32);
    name
}

/// A star is named after the absolute values of its coordinates: mirroring
/// a sector through either axis or through the origin keeps its name.
pub proof fn lemma_name_ignores_signs(x: int, y: int)
    ensures
        stellar_name_of(x, y) == stellar_name_of(-x, -y),
        stellar_name_of(x, y) == stellar_name_of(-x, y),
        stellar_name_of(x, y) == stellar_name_of(x, -y),
        stellar_name_of(x, y) == stellar_name_of(abs(x), abs(y)),
{
}

/// The number that a string of decimal digits writes.
pub open spec fn digits_value(s: Seq<char>) -> int
    decreases s.len(),
{
    if s.len() == 0 {
        0
    } else {
        digits_value(s.drop_last()) * 10 + (s.last() as int - 48)
    }
}

/// `decimal(n)` writes `n` in base ten: only the digits '0' to '9', no
/// leading zero, and read back it is `n`.
pub proof fn lemma_decimal_writes_the_number(n: nat)
    ensures
        decimal(n).len() > 0,
        forall|i: int| 0 <= i < decimal(n).len() ==> '0' <= #[trigger] decimal(n)[i] <= '9',
        n > 0 ==> decimal(n)[0] != '0',
        digits_value(decimal(n)) == n,
    decreases n,
{
    if n >= 10 {
        lemma_decimal_writes_the_number(n / 10);
        let d = decimal(n);
        assert(d.drop_last() =~= decimal(n / 10));
        assert forall|i: int| 0 <= i < d.len() implies '0' <= #[trigger] d[i] <= '9' by {
            if i < d.len() - 1 {
                assert(d[i] == decimal(n / 10)[i]);
            }
        }
        assert(d[0] == decimal(n / 10)[0]);
        assert(d.last() == digit_char((n % 10) as int));
        assert(digit_char((n % 10) as int) as int == (n % 10) + 48);
        vstd::arithmetic::div_mod::lemma_fundamental_div_mod(n as int, 10);
        assert(digits_value(d) == digits_value(d.drop_last()) * 10 + (d.last() as int - 48));
        assert(digits_value(d.drop_last()) == (n / 10) as int);
        assert(digits_value(d) == (n / 10) as int * 10 + (n % 10) as int);
    } else {
        let d = decimal(n);
        assert(d.drop_last() =~= Seq::<char>::empty());
        assert(digit_char(n as int) as int == n + 48);
        assert(digits_value(d) == digits_value(d.drop_last()) * 10 + (d.last() as int - 48));
    }
}

/// The prefix of a name follows the sum of the absolute coordinates modulo
/// 6: the origin's star is a Kepler, and one step further from the origin
/// along either axis moves to the next prefix, cyclically.
pub proof fn lemma_prefix_steps(x: int, y: int)
    requires
        x >= 0,
        y >= 0,
    ensures
        name_prefix_index(0, 0) == 0,
        name_prefix_index(x + 1, y) == (name_prefix_index(x, y) + 1) % 6,
        name_prefix_index(x, y + 1) == (name_prefix_index(x, y) + 1) % 6,
        name_prefix_index(x, y) == (x + y) % 6,
        0 <= name_prefix_index(x, y) < 6,
{
}

/// The number of a name follows 73 times the absolute column plus 37 times
/// the absolute row, modulo 9999: 0 at the origin, 73 more per column and
/// 37 more per row away from it, wrapping at 9999.
pub proof fn lemma_suffix_steps(x: int, y: int)
    requires
        x >= 0,
        y >= 0,
    ensures
        name_suffix(0, 0) == 0,
        name_suffix(x + 1, y) == (name_suffix(x, y) + 73) % 9999,
        name_suffix(x, y + 1) == (name_suffix(x, y) + 37) % 9999,
        name_suffix(x, y) == (73 * x + 37 * y) % 9999,
        0 <= name_suffix(x, y) < 9999,
{
    vstd::arithmetic::div_mod::lemma_add_mod_noop(73 * x + 37 * y, 73, 9999);
    vstd::arithmetic::div_mod::lemma_add_mod_noop(73 * x + 37 * y, 37, 9999);
    vstd::arithmetic::div_mod::lemma_mod_twice(73, 9999);
    vstd::arithmetic::div_mod::lemma_mod_twice(37, 9999);
    vstd::arithmetic::div_mod::lemma_small_mod(73, 9999);
    vstd::arithmetic::div_mod::lemma_small_mod(37, 9999);
    vstd::arithmetic::div_mod::lemma_add_mod_noop(name_suffix(x, y), 73, 9999);
    vstd::arithmetic::div_mod::lemma_add_mod_noop(name_suffix(x, y), 37, 9999);
    vstd::arithmetic::div_mod::lemma_mod_twice(73 * x + 37 * y, 9999);
}

/// The name of the star of `(x, y)` reads: the prefix numbered
/// `(|x| + |y|) % 6` in the list Kepler, Gliese, Trappist, Wolf, Barnard,
/// Sirius; a hyphen; then the decimal digits of `(73|x| + 37|y|) % 9999`.
pub proof fn lemma_name_layout(x: int, y: int)
    ensures
        ({
            let ax = if x < 0 { -x } else { x };
            let ay = if y < 0 { -y } else { y };
            let i = (ax + ay) % 6;
            let p = if i == 0 {
                "Kepler"@
            } else if i == 1 {
                "Gliese"@
            } else if i == 2 {
                "Trappist"@
            } else if i == 3 {
                "Wolf"@
            } else if i == 4 {
                "Barnard"@
            } else {
                "Sirius"@
            };
            let name = stellar_name_of(x, y);
            &&& name.subrange(0, p.len() as int) == p
            &&& name[p.len() as int] == '-'
            &&& digits_value(name.skip(p.len() as int + 1)) == (73 * ax + 37 * ay) % 9999
            &&& forall|k: int| p.len() < k < name.len() ==> '0' <= #[trigger] name[k] <= '9'
        }),
{
    let ax = if x < 0 { -x } else { x };
    let ay = if y < 0 { -y } else { y };
    let p = prefix_name(name_prefix_index(x, y));
    let d = decimal(name_suffix(x, y) as nat);
    let name = stellar_name_of(x, y);
    assert(name == p + seq!['-'] + d);
    assert(name.subrange(0, p.len() as int) =~= p);
    assert(name.skip(p.len() as int + 1) =~= d);
    lemma_decimal_writes_the_number(name_suffix(x, y) as nat);
    assert forall|k: int| p.len() < k < name.len() implies '0' <= #[trigger] name[k] <= '9' by {
        assert(name[k] == d[k - p.len() - 1]);
    }
}

} // verus!
