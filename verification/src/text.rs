//! Names that are put together from parts and numbers.
use vstd::prelude::*;
use vstd::string::{StrSliceExecFns, StringExecFns};

verus! {

/// Whether a text has another one somewhere in it.
pub open spec fn is_part(part: Seq<char>, text: Seq<char>) -> bool {
    exists|i: int| #[trigger] part_at(part, text, i)
}

/// Whether a text has another one at a place.
pub open spec fn part_at(part: Seq<char>, text: Seq<char>, i: int) -> bool {
    0 <= i <= text.len() - part.len() && text.subrange(i, i + part.len()) == part
}

/// Whether a text has another one somewhere in it.
pub fn contains(text: &str, part: &str) -> (r: bool)
    ensures
        r == is_part(part@, text@),
{
    let n: usize = text.unicode_len();
    let m: usize = part.unicode_len();
    if m > n {
        return false;
    }
    let mut i: usize = 0;
    while i <= n - m
        invariant
            n == text@.len(),
            m == part@.len(),
            m <= n,
            i <= n - m + 1,
            forall|k: int| 0 <= k < i ==> !#[trigger] part_at(part@, text@, k),
        decreases n - m + 1 - i,
    {
        let mut j: usize = 0;
        while j < m && text.get_char(i + j) == part.get_char(j)
            invariant
                n == text@.len(),
                m == part@.len(),
                m <= n,
                i <= n - m,
                j <= m,
                forall|k: int| 0 <= k < j ==> text@[i + k] == part@[k],
            decreases m - j,
        {
            j += 1;
        }
        if j == m {
            assert(text@.subrange(i as int, i + m) =~= part@);
            assert(part_at(part@, text@, i as int));
            return true;
        }
        assert(!part_at(part@, text@, i as int)) by {
            assert(text@[i + j] != part@[j as int]);
            assert(text@.subrange(i as int, i + m)[j as int] == text@[i + j]);
        }
        i += 1;
    }
    false
}

/// The character of a digit.
pub open spec fn digit(d: int) -> char {
    if d == 0 {
        '0'
    } else if d == 1 {
        '1'
    } else if d == 2 {
        '2'
    } else if d == 3 {
        '3'
    } else if d == 4 {
        '4'
    } else if d == 5 {
        '5'
    } else if d == 6 {
        '6'
    } else if d == 7 {
        '7'
    } else if d == 8 {
        '8'
    } else {
        '9'
    }
}

/// The digits of a number, without leading zeros.
pub open spec fn digits(n: nat) -> Seq<char>
    decreases n,
{
    if n < 10 {
        seq![digit(n as int)]
    } else {
        digits(n / 10).push(digit((n % 10) as int))
    }
}

/// Different numbers have different digits.
pub proof fn digits_tell_numbers_apart(m: nat, n: nat)
    requires
        m != n,
    ensures
        digits(m) != digits(n),
    decreases m,
{
    lemma_digits_some(m / 10);
    lemma_digits_some(n / 10);
    if m >= 10 && n >= 10 {
        if m / 10 == n / 10 {
            assert(m % 10 != n % 10);
            assert(digits(m).last() != digits(n).last());
        } else {
            digits_tell_numbers_apart(m / 10, n / 10);
            assert(digits(m).drop_last() =~= digits(m / 10));
            assert(digits(n).drop_last() =~= digits(n / 10));
        }
    } else if m < 10 && n < 10 {
        assert(digits(m)[0] != digits(n)[0]);
    } else {
        assert(digits(m).len() != digits(n).len());
    }
}

proof fn lemma_digits_some(n: nat)
    ensures
        digits(n).len() > 0,
{
}

fn digit_text(d: u64) -> (text: &'static str)
    requires
        d < 10,
    ensures
        text@ == seq![digit(d as int)],
{
    proof {
        reveal_strlit("0");
        reveal_strlit("1");
        reveal_strlit("2");
        reveal_strlit("3");
        reveal_strlit("4");
        reveal_strlit("5");
        reveal_strlit("6");
        reveal_strlit("7");
        reveal_strlit("8");
        reveal_strlit("9");
    }
    let text: &'static str = if d == 0 {
        "0"
    } else if d == 1 {
        "1"
    } else if d == 2 {
        "2"
    } else if d == 3 {
        "3"
    } else if d == 4 {
        "4"
    } else if d == 5 {
        "5"
    } else if d == 6 {
        "6"
    } else if d == 7 {
        "7"
    } else if d == 8 {
        "8"
    } else {
        "9"
    };
    assert(text@ =~= seq![digit(d as int)]);
    text
}

/// A text followed by the digits of a number.
pub fn numbered(text: &str, n: u64) -> (r: String)
    ensures
        r@ == text@ + digits(n as nat),
    decreases n,
{
    let mut r: String = if n < 10 {
        text.to_string()
    } else {
        numbered(text, n / 10)
    };
    r.append(digit_text(n % 10));
    assert(r@ =~= text@ + digits(n as nat));
    r
}

/// The name of the file that is locked while the socket of a name is in use.
pub fn lock_name(socket_name: &str) -> (r: String)
    ensures
        r@ == socket_name@ + ".lock"@,
{
    let mut r: String = socket_name.to_string();
    r.append(".lock");
    r
}

} // verus!
