//! Character-level utilities shared by the wire codec: splitting a text into
//! lines, splitting a header line at its first space, and reading and writing
//! decimal numbers.

use vstd::prelude::*;

verus! {

// ---------------------------------------------------------------------------
// Decimal digits
// ---------------------------------------------------------------------------

/// The value of one decimal digit character, if it is one.
pub open spec fn digit_of(c: char) -> Option<int> {
    if c == '0' {
        Some(0)
    } else if c == '1' {
        Some(1)
    } else if c == '2' {
        Some(2)
    } else if c == '3' {
        Some(3)
    } else if c == '4' {
        Some(4)
    } else if c == '5' {
        Some(5)
    } else if c == '6' {
        Some(6)
    } else if c == '7' {
        Some(7)
    } else if c == '8' {
        Some(8)
    } else if c == '9' {
        Some(9)
    } else {
        None
    }
}

/// The character for one decimal digit.
pub open spec fn digit_char(d: int) -> char {
    if d == 0 {
        '0'
    } else if d == 1 {
        '1'
    } else if d == 2 {
        '2'
    } else if d == 3 {
        '3'
    } else if d == 4 {
        '4'
    } else if d == 5 {
        '5'
    } else if d == 6 {
        '6'
    } else if d == 7 {
        '7'
    } else if d == 8 {
        '8'
    } else {
        '9'
    }
}

/// The usual decimal rendering of a natural number, most significant digit
/// first, with no leading zeros (except for the number 0 itself).
pub open spec fn dec_digits(n: nat) -> Seq<char>
    decreases n,
{
    if n < 10 {
        seq![digit_char(n as int)]
    } else {
        dec_digits(n / 10).push(digit_char((n % 10) as int))
    }
}

/// Every character of `s` is a decimal digit.
pub open spec fn all_digits(s: Seq<char>) -> bool {
    forall|i: int| 0 <= i < s.len() ==> #[trigger] digit_of(s[i]) is Some
}

/// The numeric value of a digit string, read most significant digit first.
pub open spec fn digits_val(s: Seq<char>) -> nat
    decreases s.len(),
{
    if s.len() == 0 {
        0
    } else {
        digits_val(s.drop_last()) * 10 + match digit_of(s.last()) {
            Some(d) => d as nat,
            None => 0,
        }
    }
}

/// Length of the longest prefix of `s` made of decimal digits.
pub open spec fn digit_prefix_len(s: Seq<char>) -> int
    decreases s.len(),
{
    if s.len() == 0 || digit_of(s[0]) is None {
        0
    } else {
        1 + digit_prefix_len(s.drop_first())
    }
}

proof fn lemma_digit_char_val(d: int)
    requires
        0 <= d < 10,
    ensures
        digit_of(digit_char(d)) == Some(d),
{
}

/// The decimal rendering of `n` is non-empty, made of digits, and reads back
/// to `n`.
pub proof fn lemma_dec_digits(n: nat)
    ensures
        dec_digits(n).len() >= 1,
        all_digits(dec_digits(n)),
        digits_val(dec_digits(n)) == n,
    decreases n,
{
    assert(digits_val(Seq::<char>::empty()) == 0);
    if n < 10 {
        lemma_digit_char_val(n as int);
        assert(dec_digits(n) =~= seq![digit_char(n as int)]);
        assert(dec_digits(n).drop_last() =~= Seq::<char>::empty());
        assert(dec_digits(n).last() == digit_char(n as int));
        assert(digits_val(dec_digits(n)) == digits_val(Seq::<char>::empty()) * 10 + n);
    } else {
        lemma_dec_digits(n / 10);
        lemma_digit_char_val((n % 10) as int);
        let s = dec_digits(n);
        assert(s == dec_digits(n / 10).push(digit_char((n % 10) as int)));
        assert(s.drop_last() =~= dec_digits(n / 10));
        assert(s.last() == digit_char((n % 10) as int));
        assert(digits_val(s) == (n / 10) * 10 + n % 10);
        assert((n / 10) * 10 + n % 10 == n) by (nonlinear_arith);
        assert forall|i: int| 0 <= i < s.len() implies #[trigger] digit_of(s[i]) is Some by {
            if i < s.len() - 1 {
                assert(s[i] == dec_digits(n / 10)[i]);
            }
        }
    }
}

/// Scanning digits off the front of `ds + rest`, where `ds` is all digits and
/// `rest` does not start with one, stops exactly at the end of `ds`.
pub proof fn lemma_digit_prefix_concat(ds: Seq<char>, rest: Seq<char>)
    requires
        all_digits(ds),
        rest.len() == 0 || digit_of(rest[0]) is None,
    ensures
        digit_prefix_len(ds + rest) == ds.len(),
        (ds + rest).take(ds.len() as int) =~= ds,
        (ds + rest).skip(ds.len() as int) =~= rest,
    decreases ds.len(),
{
    let s = ds + rest;
    if ds.len() == 0 {
        assert(s =~= rest);
    } else {
        assert(digit_of(s[0]) == digit_of(ds[0]));
        assert(digit_of(ds[0]) is Some);
        assert(s.drop_first() =~= ds.drop_first() + rest);
        assert(all_digits(ds.drop_first())) by {
            assert forall|i: int| 0 <= i < ds.drop_first().len()
                implies #[trigger] digit_of(ds.drop_first()[i]) is Some by {
                assert(ds.drop_first()[i] == ds[i + 1]);
            }
        }
        lemma_digit_prefix_concat(ds.drop_first(), rest);
    }
}

/// A longer digit prefix never has a smaller value.
pub proof fn lemma_digits_val_mono(s: Seq<char>, a: int, b: int)
    requires
        0 <= a <= b <= s.len(),
    ensures
        digits_val(s.take(a)) <= digits_val(s.take(b)),
    decreases b - a,
{
    if a < b {
        lemma_digits_val_mono(s, a, b - 1);
        assert(s.take(b).drop_last() =~= s.take(b - 1));
        let v = digits_val(s.take(b - 1));
        assert(digits_val(s.take(b)) >= v * 10) by {
            assert(v * 10 >= v) by (nonlinear_arith)
                requires
                    v >= 0,
            ;
        }
    }
}

// ---------------------------------------------------------------------------
// Splitting text into lines, and a line at its first space
// ---------------------------------------------------------------------------

/// Split a text at its first newline: the first line (without the newline)
/// and everything after the newline.  A text without a newline is one line
/// with nothing after it.
pub open spec fn split_first_line(s: Seq<char>) -> (Seq<char>, Seq<char>)
    decreases s.len(),
{
    if s.len() == 0 {
        (Seq::empty(), Seq::empty())
    } else if s[0] == '\n' {
        (Seq::empty(), s.drop_first())
    } else {
        let r = split_first_line(s.drop_first());
        (seq![s[0]] + r.0, r.1)
    }
}

/// Splitting `line + "\n" + rest` yields `line` and `rest`, when `line` holds
/// no newline of its own.
pub proof fn lemma_split_line_concat(line: Seq<char>, rest: Seq<char>)
    requires
        !line.contains('\n'),
    ensures
        split_first_line(line + seq!['\n'] + rest).0 =~= line,
        split_first_line(line + seq!['\n'] + rest).1 =~= rest,
    decreases line.len(),
{
    let s = line + seq!['\n'] + rest;
    if line.len() == 0 {
        assert(s[0] == '\n');
        assert(s.drop_first() =~= rest);
    } else {
        assert(s[0] == line[0]);
        assert(line[0] != '\n') by {
            assert(line.contains(line[0]));
        }
        assert(s.drop_first() =~= line.drop_first() + seq!['\n'] + rest);
        assert(!line.drop_first().contains('\n')) by {
            if line.drop_first().contains('\n') {
                let i = choose|i: int|
                    0 <= i < line.drop_first().len() && line.drop_first()[i] == '\n';
                assert(line[i + 1] == '\n');
            }
        }
        lemma_split_line_concat(line.drop_first(), rest);
    }
}

/// A text without any newline splits into itself and an empty remainder.
pub proof fn lemma_split_line_no_newline(s: Seq<char>)
    requires
        !s.contains('\n'),
    ensures
        split_first_line(s).0 =~= s,
        split_first_line(s).1 =~= Seq::<char>::empty(),
    decreases s.len(),
{
    if s.len() > 0 {
        assert(s[0] != '\n') by {
            assert(s.contains(s[0]));
        }
        assert(!s.drop_first().contains('\n')) by {
            if s.drop_first().contains('\n') {
                let i = choose|i: int| 0 <= i < s.drop_first().len() && s.drop_first()[i] == '\n';
                assert(s[i + 1] == '\n');
            }
        }
        lemma_split_line_no_newline(s.drop_first());
    }
}

/// The remainder after the first line is strictly shorter than the text.
pub proof fn lemma_split_line_shrinks(s: Seq<char>)
    requires
        s.len() > 0,
    ensures
        split_first_line(s).1.len() < s.len(),
    decreases s.len(),
{
    if s[0] != '\n' {
        if s.drop_first().len() > 0 {
            lemma_split_line_shrinks(s.drop_first());
        } else {
            assert(split_first_line(s.drop_first()).1 =~= Seq::<char>::empty());
        }
    }
}

/// Split a text at the first occurrence of `c`, if it has one: the part
/// before and the part after it.
pub open spec fn split_first_at(s: Seq<char>, c: char) -> Option<(Seq<char>, Seq<char>)>
    decreases s.len(),
{
    if s.len() == 0 {
        None
    } else if s[0] == c {
        Some((Seq::empty(), s.drop_first()))
    } else {
        match split_first_at(s.drop_first(), c) {
            None => None,
            Some(r) => Some((seq![s[0]] + r.0, r.1)),
        }
    }
}

/// Splitting `head + [c] + rest` at `c` yields `head` and `rest`, when
/// `head` holds no `c` of its own.
pub proof fn lemma_split_at_concat(head: Seq<char>, c: char, rest: Seq<char>)
    requires
        !head.contains(c),
    ensures
        split_first_at(head + seq![c] + rest, c) matches Some(r) && r.0 =~= head && r.1 =~= rest,
    decreases head.len(),
{
    let s = head + seq![c] + rest;
    if head.len() == 0 {
        assert(s[0] == c);
        assert(s.drop_first() =~= rest);
    } else {
        assert(s[0] == head[0]);
        assert(head[0] != c) by {
            assert(head.contains(head[0]));
        }
        assert(s.drop_first() =~= head.drop_first() + seq![c] + rest);
        assert(!head.drop_first().contains(c)) by {
            if head.drop_first().contains(c) {
                let i = choose|i: int| 0 <= i < head.drop_first().len() && head.drop_first()[i]
                    == c;
                assert(head[i + 1] == c);
            }
        }
        lemma_split_at_concat(head.drop_first(), c, rest);
    }
}

/// A text without `c` does not split at it.
pub proof fn lemma_split_at_none(s: Seq<char>, c: char)
    requires
        !s.contains(c),
    ensures
        split_first_at(s, c) is None,
    decreases s.len(),
{
    if s.len() > 0 {
        assert(s[0] != c) by {
            assert(s.contains(s[0]));
        }
        assert(!s.drop_first().contains(c)) by {
            if s.drop_first().contains(c) {
                let i = choose|i: int| 0 <= i < s.drop_first().len() && s.drop_first()[i] == c;
                assert(s[i + 1] == c);
            }
        }
        lemma_split_at_none(s.drop_first(), c);
    }
}

// ---------------------------------------------------------------------------
// Executable helpers
// ---------------------------------------------------------------------------

/// Relies on `String::push`: appends one character to the string.
#[verifier::external_body]
pub fn push_char(s: &mut String, c: char)
    ensures
        final(s)@ == old(s)@.push(c),
{
    s.push(c);
}

/// The characters of a string slice, as a vector.
pub fn str_to_chars(s: &str) -> (v: Vec<char>)
    ensures
        v@ == s@,
{
    let n = s.unicode_len();
    let mut v: Vec<char> = Vec::new();
    let mut i: usize = 0;
    while i < n
        invariant
            i <= n,
            n == s@.len(),
            v@ =~= s@.take(i as int),
        decreases n - i,
    {
        let c = s.get_char(i);
        v.push(c);
        proof {
            assert(v@ =~= s@.take(i + 1));
        }
        i = i + 1;
    }
    proof {
        assert(v@ =~= s@);
    }
    v
}

/// Whether a character slice spells the same text as a string slice.
pub fn chars_eq_str(v: &[char], s: &str) -> (b: bool)
    ensures
        b == (v@ == s@),
{
    let n = s.unicode_len();
    if v.len() != n {
        proof {
            assert(v@.len() != s@.len());
        }
        return false;
    }
    let mut i: usize = 0;
    while i < n
        invariant
            i <= n,
            n == s@.len(),
            v@.len() == n,
            forall|j: int| 0 <= j < i ==> v@[j] == s@[j],
        decreases n - i,
    {
        if *vstd::slice::slice_index_get(v, i) != s.get_char(i) {
            proof {
                assert(v@[i as int] != s@[i as int]);
            }
            return false;
        }
        i = i + 1;
    }
    proof {
        assert(v@ =~= s@);
    }
    true
}

/// Take the first line off a character slice: the line, the index just after
/// its newline (or the end, if there is none), and whether a newline was
/// found.
pub fn take_line(v: &[char]) -> (r: (Vec<char>, usize, bool))
    ensures
        split_first_line(v@).0 =~= r.0@,
        split_first_line(v@).1 =~= v@.skip(r.1 as int),
        r.2 == v@.contains('\n'),
        r.2 ==> 1 <= r.1 <= v@.len() && v@[r.1 as int - 1] == '\n',
        !r.2 ==> r.1 == v@.len(),
        !r.0@.contains('\n'),
{
    let n = v.len();
    let mut i: usize = 0;
    let mut line: Vec<char> = Vec::new();
    while i < n
        invariant
            i <= n,
            n == v@.len(),
            line@ =~= v@.take(i as int),
            forall|j: int| 0 <= j < i ==> v@[j] != '\n',
        decreases n - i,
    {
        let c = *vstd::slice::slice_index_get(v, i);
        if c == '\n' {
            proof {
                assert(v@ =~= line@ + seq!['\n'] + v@.skip(i + 1));
                assert(!line@.contains('\n')) by {
                    if line@.contains('\n') {
                        let k = choose|k: int| 0 <= k < line@.len() && line@[k] == '\n';
                        assert(v@[k] == '\n');
                    }
                }
                lemma_split_line_concat(line@, v@.skip(i + 1));
                assert(v@.contains('\n')) by {
                    assert(v@[i as int] == '\n');
                }
            }
            return (line, i + 1, true);
        }
        line.push(c);
        proof {
            assert(line@ =~= v@.take(i + 1));
        }
        i = i + 1;
    }
    proof {
        assert(line@ =~= v@);
        assert(!v@.contains('\n')) by {
            if v@.contains('\n') {
                let k = choose|k: int| 0 <= k < v@.len() && v@[k] == '\n';
            }
        }
        lemma_split_line_no_newline(v@);
        assert(v@.skip(n as int) =~= Seq::<char>::empty());
        assert(!line@.contains('\n'));
    }
    (line, n, false)
}

/// Append the characters of a slice to a string.
pub fn append_chars(s: &mut String, v: &[char])
    ensures
        final(s)@ == old(s)@ + v@,
{
    let n = v.len();
    let mut i: usize = 0;
    while i < n
        invariant
            i <= n,
            n == v@.len(),
            s@ == old(s)@ + v@.take(i as int),
        decreases n - i,
    {
        let c = *vstd::slice::slice_index_get(v, i);
        push_char(s, c);
        proof {
            assert(old(s)@ + v@.take(i + 1) =~= (old(s)@ + v@.take(i as int)).push(c));
        }
        i = i + 1;
    }
    proof {
        assert(v@.take(n as int) =~= v@);
    }
}

/// The decimal digit character for a value below ten.
pub fn digit_to_char(d: u8) -> (c: char)
    requires
        d < 10,
    ensures
        c == digit_char(d as int),
{
    match d {
        0 => '0',
        1 => '1',
        2 => '2',
        3 => '3',
        4 => '4',
        5 => '5',
        6 => '6',
        7 => '7',
        8 => '8',
        _ => '9',
    }
}

/// The value of a decimal digit character, if it is one.
pub fn char_to_digit(c: char) -> (r: Option<u8>)
    ensures
        match r {
            Some(d) => digit_of(c) == Some(d as int) && d < 10,
            None => digit_of(c) is None,
        },
{
    match c {
        '0' => Some(0),
        '1' => Some(1),
        '2' => Some(2),
        '3' => Some(3),
        '4' => Some(4),
        '5' => Some(5),
        '6' => Some(6),
        '7' => Some(7),
        '8' => Some(8),
        '9' => Some(9),
        _ => None,
    }
}

/// Append the decimal rendering of `n` to a string.
pub fn append_u32(s: &mut String, n: u32)
    ensures
        final(s)@ == old(s)@ + dec_digits(n as nat),
    decreases n,
{
    if n >= 10 {
        append_u32(s, n / 10);
    }
    push_char(s, digit_to_char((n % 10) as u8));
    proof {
        if n < 10 {
            assert(old(s)@ + dec_digits(n as nat) =~= old(s)@.push(digit_char(n as int)));
        } else {
            assert(old(s)@ + dec_digits(n as nat) =~= (old(s)@ + dec_digits((n / 10) as nat)).push(
                digit_char((n % 10) as int),
            ));
        }
    }
}

} // verus!
