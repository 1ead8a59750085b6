//! Small pieces of text handling.

use vstd::prelude::*;

verus! {

/// `part` stands in `whole` from position `i` on.
pub open spec fn stands_at(whole: Seq<char>, part: Seq<char>, i: int) -> bool {
    &&& 0 <= i
    &&& i + part.len() <= whole.len()
    &&& whole.subrange(i, i + part.len()) == part
}

/// `part` occurs in `whole`.
pub open spec fn occurs(whole: Seq<char>, part: Seq<char>) -> bool {
    exists|i: int| #[trigger] stands_at(whole, part, i)
}

/// Whether two texts are the same.
pub fn same(a: &str, b: &str) -> (r: bool)
    ensures
        r == (a@ == b@),
{
    let n: usize = a.unicode_len();
    if n != b.unicode_len() {
        return false;
    }
    for i in 0..n
        invariant
            n == a@.len(),
            n == b@.len(),
            forall|j: int| 0 <= j < i ==> a@[j] == b@[j],
    {
        if a.get_char(i) != b.get_char(i) {
            return false;
        }
    }
    assert(a@ =~= b@);
    true
}

/// Whether `part` stands in `whole` from position `at` on.
fn part_at(whole: &str, part: &str, at: usize) -> (r: bool)
    requires
        at + part@.len() <= whole@.len(),
        whole@.len() <= usize::MAX,
    ensures
        r == stands_at(whole@, part@, at as int),
{
    let n: usize = part.unicode_len();
    for i in 0..n
        invariant
            n == part@.len(),
            at + n <= whole@.len() <= usize::MAX,
            forall|j: int| 0 <= j < i ==> whole@[at + j] == part@[j],
    {
        if whole.get_char(at + i) != part.get_char(i) {
            assert(whole@.subrange(at as int, at + n)[i as int] != part@[i as int]);
            return false;
        }
    }
    assert(whole@.subrange(at as int, at + n) =~= part@);
    true
}

/// Whether `part` occurs in `whole`.
pub fn contains(whole: &str, part: &str) -> (r: bool)
    ensures
        r == occurs(whole@, part@),
        r <==> exists|i: int|
            0 <= i <= whole@.len() - part@.len() && #[trigger] whole@.skip(i).take(
                part@.len() as int,
            ) == part@,
{
    proof {
        occurring_is_standing_somewhere(whole@, part@);
    }
    let n: usize = whole.unicode_len();
    let m: usize = part.unicode_len();
    if m > n {
        return false;
    }
    let mut i: usize = 0;
    while i <= n - m
        invariant
            n == whole@.len(),
            m == part@.len(),
            m <= n,
            i <= n - m + 1,
            forall|j: int| 0 <= j < i ==> !stands_at(whole@, part@, j),
        decreases n - i,
    {
        proof {
            occurring_is_standing_somewhere(whole@, part@);
        }
        if part_at(whole, part, i) {
            return true;
        }
        if i == n - m {
            assert forall|j: int| !stands_at(whole@, part@, j) by {}
            return false;
        }
        i = i + 1;
    }
    false
}

/// A part occurs in a text exactly when, from some place on, the text goes on with the part.
pub proof fn occurring_is_standing_somewhere(whole: Seq<char>, part: Seq<char>)
    ensures
        occurs(whole, part) <==> exists|i: int|
            0 <= i <= whole.len() - part.len() && #[trigger] whole.skip(i).take(part.len() as int)
                == part,
{
    if occurs(whole, part) {
        let i = choose|i: int| #[trigger] stands_at(whole, part, i);
        assert(whole.skip(i).take(part.len() as int) =~= part);
    }
    if exists|i: int|
        0 <= i <= whole.len() - part.len() && #[trigger] whole.skip(i).take(part.len() as int)
            == part {
        let i = choose|i: int|
            0 <= i <= whole.len() - part.len() && #[trigger] whole.skip(i).take(part.len() as int)
                == part;
        assert(whole.subrange(i, i + part.len()) =~= whole.skip(i).take(part.len() as int));
        assert(stands_at(whole, part, i));
    }
}

/// A part occurs in every text that was put together with it, and in none that is shorter.
pub proof fn parts_occur(before: Seq<char>, part: Seq<char>, after: Seq<char>)
    ensures
        occurs(before + part + after, part),
        occurs(before, part) ==> before.len() >= part.len() && occurs(before + after, part),
{
    let whole = before + part + after;
    let i = before.len() as int;
    assert(whole.subrange(i, i + part.len()) =~= part);
    assert(stands_at(whole, part, i));
    if occurs(before, part) {
        let k = choose|k: int| #[trigger] stands_at(before, part, k);
        assert((before + after).subrange(k, k + part.len()) =~= before.subrange(
            k,
            k + part.len(),
        ));
        assert(stands_at(before + after, part, k));
    }
}

/// The text without the slashes at its end.
pub open spec fn without_end_slashes(s: Seq<char>) -> Seq<char>
    decreases s.len(),
{
    if s.len() > 0 && s.last() == '/' {
        without_end_slashes(s.drop_last())
    } else {
        s
    }
}

/// The text without the slashes at its end.
pub fn trim_end_slashes(s: &str) -> (r: String)
    ensures
        r@ == without_end_slashes(s@),
{
    let mut n: usize = s.unicode_len();
    assert(s@.take(n as int) =~= s@);
    while n > 0 && s.get_char(n - 1) == '/'
        invariant
            n <= s@.len(),
            without_end_slashes(s@) == without_end_slashes(s@.take(n as int)),
        decreases n,
    {
        assert(s@.take(n as int).last() == '/');
        assert(s@.take(n as int).drop_last() =~= s@.take(n - 1));
        n = n - 1;
    }
    assert(s@.subrange(0, n as int) =~= s@.take(n as int));
    let r = String::from_str(s.substring_char(0, n));
    proof {
        if n > 0 {
            assert(s@.take(n as int).last() == s@[n - 1]);
        }
    }
    r
}

/// What is left after the slashes at the end are gone does not end in a slash, and is the start
/// of the text.
pub proof fn trimmed_has_no_end_slash(s: Seq<char>)
    ensures
        without_end_slashes(s).len() > 0 ==> without_end_slashes(s).last() != '/',
        without_end_slashes(s).len() <= s.len(),
        without_end_slashes(s) == s.take(without_end_slashes(s).len() as int),
        forall|i: int| without_end_slashes(s).len() <= i < s.len() ==> #[trigger] s[i] == '/',
    decreases s.len(),
{
    if s.len() > 0 && s.last() == '/' {
        let rest = s.drop_last();
        trimmed_has_no_end_slash(rest);
        assert forall|i: int| without_end_slashes(s).len() <= i < s.len() implies #[trigger] s[i]
            == '/' by {
            if i < rest.len() {
                assert(rest[i] == '/');
            }
        }
    }
}

/// Slashes at the end make no difference, and a text that does not end in one stays as it is.
pub proof fn end_slashes_do_not_count(s: Seq<char>)
    ensures
        without_end_slashes(s.push('/')) == without_end_slashes(s),
        s.len() == 0 || s.last() != '/' ==> without_end_slashes(s) == s,
{
    assert(s.push('/').drop_last() =~= s);
}

/// Two texts joined.
pub fn join(a: &str, b: &str) -> (r: String)
    ensures
        r@ == a@ + b@,
{
    let mut r = String::from_str(a);
    r.append(b);
    r
}

/// The digit `d` as a character.
pub open spec fn digit(d: nat) -> char {
    ('0' as u32 + d) as char
}

/// A number in decimal.
pub open spec fn decimal(n: nat) -> Seq<char>
    decreases n,
{
    if n < 10 {
        seq![digit(n)]
    } else {
        decimal(n / 10).push(digit(n % 10))
    }
}

/// The number that decimal digits stand for.
pub open spec fn number_of(digits: Seq<char>) -> int
    decreases digits.len(),
{
    if digits.len() == 0 {
        0
    } else {
        10 * number_of(digits.drop_last()) + (digits.last() as int - '0' as int)
    }
}

/// A number in decimal reads back as the number. It has only digits, at least one of them, and no
/// zero in front but in zero itself.
pub proof fn decimal_reads_back(n: nat)
    ensures
        number_of(decimal(n)) == n,
        decimal(n).len() > 0,
        forall|i: int|
            0 <= i < decimal(n).len() ==> '0' as int <= #[trigger] decimal(n)[i] as int
                && decimal(n)[i] as int <= '9' as int,
        n > 0 ==> decimal(n)[0] != '0',
    decreases n,
{
    if n < 10 {
        assert(decimal(n).drop_last() =~= Seq::empty());
        assert(number_of(decimal(n).drop_last()) == 0);
    } else {
        let front = decimal(n / 10);
        decimal_reads_back(n / 10);
        assert(decimal(n).drop_last() =~= front);
        assert forall|i: int| 0 <= i < decimal(n).len() implies '0' as int <= #[trigger] decimal(
            n,
        )[i] as int && decimal(n)[i] as int <= '9' as int by {
            if i < front.len() {
                assert(decimal(n)[i] == front[i]);
            }
        }
        assert(decimal(n)[0] == front[0]);
    }
}

/// The digit `d` as text.
fn digit_text(d: u64) -> (r: &'static str)
    requires
        d < 10,
    ensures
        r@ == seq![digit(d as nat)],
{
    proof {
        reveal_strlit("0");
        reveal_strlit("1");
        reveal_strlit("2");
        reveal_strlit("3");
        reveal_strlit("4");
        reveal_strlit("5");
        reveal_strlit("6");
        reveal_strlit("7");
        reveal_strlit("8");
        reveal_strlit("9");
    }
    let r: &'static str = match d {
        0 => "0",
        1 => "1",
        2 => "2",
        3 => "3",
        4 => "4",
        5 => "5",
        6 => "6",
        7 => "7",
        8 => "8",
        _ => "9",
    };
    assert(r@ =~= seq![digit(d as nat)]);
    r
}

/// A number in decimal.
pub fn decimal_text(n: u64) -> (r: String)
    ensures
        r@ == decimal(n as nat),
        number_of(r@) == n,
    decreases n,
{
    proof {
        decimal_reads_back(n as nat);
    }
    if n < 10 {
        String::from_str(digit_text(n))
    } else {
        let mut r = decimal_text(n / 10);
        r.append(digit_text(n % 10));
        assert(decimal(n as nat) =~= decimal(n as nat / 10) + seq![digit(n as nat % 10)]);
        r
    }
}

/// Texts are the same exactly when they have the same characters; a text put together of others has
/// each of them in it; and a number in decimal is told apart from every other number.
pub proof fn texts_are_what_they_hold(
    a: &str,
    b: &str,
    joined: String,
    whole: &str,
    is_same: bool,
    found: bool,
    n: u64,
    m: u64,
    n_text: String,
    m_text: String,
)
    requires
        call_ensures(same, (a, b), is_same),
        call_ensures(join, (a, b), joined),
        whole@ == joined@,
        call_ensures(contains, (whole, b), found),
        call_ensures(decimal_text, (n,), n_text),
        call_ensures(decimal_text, (m,), m_text),
    ensures
        is_same <==> a@ == b@,
        found,
        joined@.len() == a@.len() + b@.len(),
        joined@.take(a@.len() as int) == a@,
        n_text@ == m_text@ ==> n == m,
        number_of(n_text@) == n,
{
    assert(joined@.take(a@.len() as int) =~= a@);
    assert(a@ + b@ + Seq::<char>::empty() =~= a@ + b@);
    parts_occur(a@, b@, Seq::empty());
}

/// Trimming twice is trimming once, and only slashes go.
pub proof fn trimming_takes_only_slashes(s: &str, once: String, rest: &str, twice: String)
    requires
        call_ensures(trim_end_slashes, (s,), once),
        rest@ == once@,
        call_ensures(trim_end_slashes, (rest,), twice),
    ensures
        twice@ == once@,
        once@.len() <= s@.len(),
        once@ == s@.take(once@.len() as int),
        forall|i: int| once@.len() <= i < s@.len() ==> #[trigger] s@[i] == '/',
        once@.len() > 0 ==> once@.last() != '/',
{
    trimmed_has_no_end_slash(s@);
    end_slashes_do_not_count(once@);
}

} // verus!
