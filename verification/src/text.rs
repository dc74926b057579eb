//! Small verified text helpers: whitespace splitting, decimal numerals, and
//! building strings one character at a time.

use vstd::prelude::*;

verus! {

/// Whether `c` is one of the whitespace characters that separate FEN fields.
pub open spec fn is_ws(c: char) -> bool {
    c == ' ' || c == '\t' || c == '\n' || c == '\r'
}

/// The length of the leading run of non-whitespace characters.
pub open spec fn token_len(s: Seq<char>) -> int
    decreases s.len(),
{
    if s.len() == 0 {
        0
    } else if is_ws(s[0]) {
        0
    } else {
        1 + token_len(s.drop_first())
    }
}

pub proof fn lemma_token_len_bounds(s: Seq<char>)
    ensures
        0 <= token_len(s) <= s.len(),
    decreases s.len(),
{
    if s.len() > 0 && !is_ws(s[0]) {
        lemma_token_len_bounds(s.drop_first());
    }
}

/// A run of `k` non-whitespace characters ending at the end of the string or
/// at a whitespace character is exactly the leading token.
pub proof fn lemma_token_len_is(s: Seq<char>, k: int)
    requires
        0 <= k <= s.len(),
        forall|j: int| 0 <= j < k ==> !is_ws(#[trigger] s[j]),
        k == s.len() || is_ws(s[k]),
    ensures
        token_len(s) == k,
    decreases k,
{
    if k == 0 {
    } else {
        assert(!is_ws(s[0]));
        let t = s.drop_first();
        assert forall|j: int| 0 <= j < k - 1 implies !is_ws(#[trigger] t[j]) by {
            assert(t[j] == s[j + 1]);
        }
        if k - 1 < t.len() {
            assert(t[k - 1] == s[k]);
        }
        lemma_token_len_is(t, k - 1);
    }
}

/// The whitespace-separated fields of `s`, in order, with empty fields
/// impossible: runs of whitespace count as single separators.
pub open spec fn split_ws(s: Seq<char>) -> Seq<Seq<char>>
    decreases s.len(),
{
    if s.len() == 0 {
        seq![]
    } else if is_ws(s[0]) {
        split_ws(s.drop_first())
    } else {
        let k = spec_token_len_pos(s);
        seq![s.take(k)] + split_ws(s.skip(k))
    }
}

/// The leading token length, clamped to [1, s.len()] for termination.
pub open spec fn spec_token_len_pos(s: Seq<char>) -> int {
    if token_len(s) < 1 {
        1
    } else if token_len(s) > s.len() {
        s.len() as int
    } else {
        token_len(s)
    }
}

/// When the string starts with a token character, `spec_token_len_pos` is
/// just the token length.
pub proof fn lemma_token_len_pos(s: Seq<char>)
    requires
        s.len() > 0,
        !is_ws(s[0]),
    ensures
        spec_token_len_pos(s) == token_len(s),
        1 <= token_len(s) <= s.len(),
{
    lemma_token_len_bounds(s.drop_first());
}

/// Whether no character of `s` is whitespace.
pub open spec fn no_ws(s: Seq<char>) -> bool {
    forall|i: int| 0 <= i < s.len() ==> !is_ws(#[trigger] s[i])
}

/// A whitespace-free string splits into itself alone.
pub proof fn lemma_split_single(f: Seq<char>)
    requires
        f.len() >= 1,
        no_ws(f),
    ensures
        split_ws(f) == seq![f],
{
    assert(!is_ws(f[0]));
    lemma_token_len_is(f, f.len() as int);
    lemma_token_len_pos(f);
    assert(split_ws(f) == seq![f.take(f.len() as int)] + split_ws(f.skip(f.len() as int)));
    assert(f.take(f.len() as int) =~= f);
    assert(f.skip(f.len() as int) =~= Seq::<char>::empty());
    assert(split_ws(Seq::<char>::empty()) =~= Seq::<Seq<char>>::empty());
    assert(split_ws(f) =~= seq![f]);
}

/// A whitespace-free field followed by a space splits off as the first
/// field.
pub proof fn lemma_split_field(f: Seq<char>, rest: Seq<char>)
    requires
        f.len() >= 1,
        no_ws(f),
    ensures
        split_ws(f + seq![' '] + rest) == seq![f] + split_ws(rest),
{
    let s = f + seq![' '] + rest;
    assert forall|j: int| 0 <= j < f.len() implies !is_ws(#[trigger] s[j]) by {
        assert(s[j] == f[j]);
    }
    assert(s[f.len() as int] == ' ');
    assert(is_ws(s[f.len() as int]));
    lemma_token_len_is(s, f.len() as int);
    lemma_token_len_pos(s);
    assert(!is_ws(s[0]));
    assert(s.take(f.len() as int) =~= f);
    let tail = s.skip(f.len() as int);
    assert(tail[0] == ' ');
    assert(tail.drop_first() =~= rest);
    assert(split_ws(s) == seq![s.take(f.len() as int)] + split_ws(tail));
    assert(split_ws(tail) == split_ws(rest));
    assert(split_ws(s) =~= seq![f] + split_ws(rest));
}

/// Parses a u64 out of a decimal numeral read left to right.
pub open spec fn dec_val(s: Seq<char>) -> int
    decreases s.len(),
{
    if s.len() == 0 {
        0
    } else {
        10 * dec_val(s.drop_last()) + (s.last() as u32 - 48)
    }
}

/// Whether `c` is a decimal digit.
pub open spec fn is_digit(c: char) -> bool {
    48 <= c as u32 <= 57
}

/// Whether every character of `s` is a decimal digit.
pub open spec fn all_digits(s: Seq<char>) -> bool {
    forall|i: int| 0 <= i < s.len() ==> is_digit(#[trigger] s[i])
}

/// The value a clock field denotes: its decimal value when it is a pure
/// in-range numeral, and 0 otherwise (lenient recovery, not an error).
pub open spec fn dec_or_zero(s: Seq<char>) -> u64 {
    if s.len() > 0 && all_digits(s) && dec_val(s) <= u64::MAX {
        dec_val(s) as u64
    } else {
        0
    }
}

/// The decimal numeral of `n`, most significant digit first.
pub open spec fn dec_str(n: int) -> Seq<char>
    decreases n,
{
    if n < 0 {
        seq![]
    } else if n < 10 {
        seq![digit_char(n)]
    } else {
        dec_str(n / 10) + seq![digit_char(n % 10)]
    }
}

/// The digit character of a value in [0, 10).
pub open spec fn digit_char(d: int) -> char {
    if d == 0 {
        '0'
    } else if d == 1 {
        '1'
    } else if d == 2 {
        '2'
    } else if d == 3 {
        '3'
    } else if d == 4 {
        '4'
    } else if d == 5 {
        '5'
    } else if d == 6 {
        '6'
    } else if d == 7 {
        '7'
    } else if d == 8 {
        '8'
    } else {
        '9'
    }
}

/// Every character of a decimal numeral is a digit, its value reads back to
/// the number itself, and it is never empty.
pub proof fn lemma_dec_str_val(n: int)
    requires
        n >= 0,
    ensures
        dec_str(n).len() >= 1,
        all_digits(dec_str(n)),
        dec_val(dec_str(n)) == n,
    decreases n,
{
    if n < 10 {
        assert(dec_str(n) == seq![digit_char(n)]);
        assert(dec_str(n).drop_last() =~= Seq::<char>::empty());
        assert(dec_val(dec_str(n)) == 10 * dec_val(Seq::<char>::empty()) + (digit_char(n) as u32
            - 48));
    } else {
        lemma_dec_str_val(n / 10);
        let a = dec_str(n / 10);
        let c = digit_char(n % 10);
        assert(dec_str(n) == a + seq![c]);
        assert((a + seq![c]).drop_last() =~= a);
        assert((a + seq![c]).last() == c);
        assert(dec_val(dec_str(n)) == 10 * dec_val(a) + (c as u32 - 48));
        assert(is_digit(c));
        assert forall|i: int| 0 <= i < dec_str(n).len() implies is_digit(#[trigger] dec_str(n)[i]) by {
            if i < a.len() {
                assert(dec_str(n)[i] == a[i]);
            } else {
                assert(dec_str(n)[i] == c);
            }
        }
    }
}

/// Whether position `i` of `s` holds a non-whitespace character; the loop
/// condition of the token scanner.
fn at_token_char(s: &str, i: usize, n: usize) -> (r: bool)
    requires
        n == s@.len(),
    ensures
        r == (i < n && !is_ws(s@[i as int])),
{
    if i < n {
        let c = s.get_char(i);
        !(c == ' ' || c == '\t' || c == '\n' || c == '\r')
    } else {
        false
    }
}

/// Splits `s` into its whitespace-separated fields.
pub fn split_whitespace_fields(s: &str) -> (r: Vec<&str>)
    ensures
        r.deep_view() == split_ws(s@),
{
    let n = s.unicode_len();
    let mut res: Vec<&str> = Vec::new();
    let mut i: usize = 0;
    proof {
        assert(s@.skip(0) =~= s@);
        assert(res.deep_view() + split_ws(s@.skip(0)) =~= split_ws(s@));
    }
    while i < n
        invariant
            n == s@.len(),
            i <= n,
            res.deep_view() + split_ws(s@.skip(i as int)) =~= split_ws(s@),
        decreases n - i,
    {
        let c = s.get_char(i);
        if c == ' ' || c == '\t' || c == '\n' || c == '\r' {
            proof {
                let t = s@.skip(i as int);
                assert(t[0] == s@[i as int]);
                assert(t.drop_first() =~= s@.skip(i as int + 1));
            }
            i = i + 1;
        } else {
            let start = i;
            i = i + 1;
            while at_token_char(s, i, n)
                invariant
                    n == s@.len(),
                    start < i <= n,
                    forall|j: int| start <= j < i ==> !is_ws(#[trigger] s@[j]),
                decreases n - i,
            {
                i = i + 1;
            }
            let field = s.substring_char(start, i);
            proof {
                let t = s@.skip(start as int);
                assert forall|j: int| 0 <= j < i - start implies !is_ws(#[trigger] t[j]) by {
                    assert(t[j] == s@[start + j]);
                }
                if (i - start) < t.len() {
                    assert(t[i - start] == s@[i as int]);
                    assert(is_ws(s@[i as int]));
                }
                lemma_token_len_is(t, i - start);
                lemma_token_len_pos(t);
                assert(split_ws(t) == seq![t.take(i - start)] + split_ws(t.skip(i - start)));
                assert(t.take(i - start) =~= s@.subrange(start as int, i as int));
                assert(t.skip(i - start) =~= s@.skip(i as int));
                assert(field@ == t.take(i - start));
            }
            let ghost old_dv = res.deep_view();
            res.push(field);
            proof {
                assert(res.deep_view() =~= old_dv.push(field@));
                assert(res.deep_view() + split_ws(s@.skip(i as int)) =~= split_ws(s@));
            }
        }
    }
    proof {
        assert(s@.skip(n as int) =~= Seq::<char>::empty());
        assert(res.deep_view() + split_ws(Seq::<char>::empty()) =~= res.deep_view());
    }
    res
}

/// Whether the views of two strings are the same sequence of characters.
pub fn str_eq_chars(a: &str, b: &str) -> (r: bool)
    ensures
        r == (a@ == b@),
{
    let n = a.unicode_len();
    if n != b.unicode_len() {
        return false;
    }
    let mut i: usize = 0;
    while i < n
        invariant
            n == a@.len(),
            n == b@.len(),
            i <= n,
            forall|j: int| 0 <= j < i ==> a@[j] == b@[j],
        decreases n - i,
    {
        if a.get_char(i) != b.get_char(i) {
            return false;
        }
        i = i + 1;
    }
    proof {
        assert(a@ =~= b@);
    }
    true
}

/// The decimal value of a clock field, with the lenient default of 0 for
/// anything that is not a pure in-range numeral.
pub fn parse_clock_field(s: &str) -> (r: u64)
    ensures
        r == dec_or_zero(s@),
{
    let n = s.unicode_len();
    if n == 0 {
        return 0;
    }
    let mut acc: u64 = 0;
    let mut i: usize = 0;
    while i < n
        invariant
            n == s@.len(),
            0 < n,
            i <= n,
            forall|j: int| 0 <= j < i ==> is_digit(#[trigger] s@[j]),
            acc == dec_val(s@.take(i as int)),
        decreases n - i,
    {
        let c = s.get_char(i);
        let code = c as u32;
        if !(48 <= code && code <= 57) {
            proof {
                assert(!is_digit(s@[i as int]));
                assert(!all_digits(s@));
            }
            return 0;
        }
        let d = (code - 48) as u64;
        if acc > (u64::MAX - d) / 10 {
            proof {
                lemma_dec_prefix_overflow(s@, i as int);
            }
            return 0;
        }
        proof {
            assert(s@.take(i as int + 1).drop_last() =~= s@.take(i as int));
            assert(s@.take(i as int + 1).last() == s@[i as int]);
        }
        acc = acc * 10 + d;
        i = i + 1;
    }
    proof {
        assert(s@.take(n as int) =~= s@);
    }
    acc
}

/// Appending digits to a numeral never shrinks its value.
proof fn lemma_dec_monotone(s: Seq<char>, i: int)
    requires
        0 <= i <= s.len(),
        all_digits(s),
        dec_val(s.take(i)) >= 0,
    ensures
        dec_val(s) >= dec_val(s.take(i)),
        dec_val(s) >= 0,
    decreases s.len() - i,
{
    if i == s.len() {
        assert(s.take(i) =~= s);
    } else {
        assert(s.take(i + 1).drop_last() =~= s.take(i));
        assert(s.take(i + 1).last() == s[i]);
        assert(is_digit(s[i]));
        assert(dec_val(s.take(i + 1)) == 10 * dec_val(s.take(i)) + (s[i] as u32 - 48));
        lemma_dec_monotone(s, i + 1);
    }
}

/// Once the next digit would push the prefix past `u64::MAX`, the whole
/// numeral is out of range.
proof fn lemma_dec_prefix_overflow(s: Seq<char>, i: int)
    requires
        0 <= i < s.len(),
        is_digit(s[i]),
        forall|j: int| 0 <= j < i ==> is_digit(#[trigger] s[j]),
        dec_val(s.take(i)) >= 0,
        dec_val(s.take(i)) > (u64::MAX - (s[i] as u32 - 48)) / 10,
    ensures
        all_digits(s) ==> dec_val(s) > u64::MAX,
{
    if all_digits(s) {
        let p = dec_val(s.take(i));
        let d = (s[i] as u32 - 48) as int;
        assert(s.take(i + 1).drop_last() =~= s.take(i));
        assert(s.take(i + 1).last() == s[i]);
        assert(dec_val(s.take(i + 1)) == 10 * p + d);
        assert(10 * p + d > u64::MAX) by {
            let q = (u64::MAX - d) as int;
            assert(p > q / 10);
            assert(p >= q / 10 + 1);
            assert(10 * (q / 10) + q % 10 == q);
            assert(0 <= q % 10 < 10);
            assert(10 * p >= 10 * (q / 10) + 10);
        }
        lemma_dec_monotone(s, i + 1);
    }
}

/// Appends the decimal numeral of `n` to `out`.
pub fn push_dec(n: u64, out: &mut String)
    ensures
        final(out)@ == old(out)@ + dec_str(n as int),
    decreases n,
{
    if n < 10 {
        push_char(out, digit_char_from(n));
        proof {
            assert(old(out)@ + seq![digit_char(n as int)] =~= old(out)@ + dec_str(n as int));
        }
    } else {
        push_dec(n / 10, out);
        push_char(out, digit_char_from(n % 10));
        proof {
            assert(old(out)@ + dec_str((n / 10) as int) + seq![digit_char((n % 10) as int)] =~= old(
                out,
            )@ + dec_str(n as int));
        }
    }
}

/// The digit character of a value in [0, 10).
pub fn digit_char_from(d: u64) -> (r: char)
    requires
        d < 10,
    ensures
        r == digit_char(d as int),
        fen_char(r),
{
    if d == 0 {
        '0'
    } else if d == 1 {
        '1'
    } else if d == 2 {
        '2'
    } else if d == 3 {
        '3'
    } else if d == 4 {
        '4'
    } else if d == 5 {
        '5'
    } else if d == 6 {
        '6'
    } else if d == 7 {
        '7'
    } else if d == 8 {
        '8'
    } else {
        '9'
    }
}

/// The characters that serialized positions and moves are built from.
pub open spec fn fen_char(c: char) -> bool {
    ||| crate::piece::is_piece_char(c)
    ||| is_digit(c)
    ||| c == '/'
    ||| c == ' '
    ||| c == '-'
    ||| c == 'w'
    ||| c == 'x'
    ||| c == 'O'
    ||| c == 'a'
    ||| c == 'c'
    ||| c == 'd'
    ||| c == 'e'
    ||| c == 'f'
    ||| c == 'g'
    ||| c == 'h'
}

/// The one-character string of a serialization character.
fn char_str(c: char) -> (r: &'static str)
    requires
        fen_char(c),
    ensures
        r@ =~= seq![c],
{
    match c {
        'P' => {
            proof {
                reveal_strlit("P");
            }
            "P"
        },
        'N' => {
            proof {
                reveal_strlit("N");
            }
            "N"
        },
        'B' => {
            proof {
                reveal_strlit("B");
            }
            "B"
        },
        'R' => {
            proof {
                reveal_strlit("R");
            }
            "R"
        },
        'Q' => {
            proof {
                reveal_strlit("Q");
            }
            "Q"
        },
        'K' => {
            proof {
                reveal_strlit("K");
            }
            "K"
        },
        'p' => {
            proof {
                reveal_strlit("p");
            }
            "p"
        },
        'n' => {
            proof {
                reveal_strlit("n");
            }
            "n"
        },
        'b' => {
            proof {
                reveal_strlit("b");
            }
            "b"
        },
        'r' => {
            proof {
                reveal_strlit("r");
            }
            "r"
        },
        'q' => {
            proof {
                reveal_strlit("q");
            }
            "q"
        },
        'k' => {
            proof {
                reveal_strlit("k");
            }
            "k"
        },
        '0' => {
            proof {
                reveal_strlit("0");
            }
            "0"
        },
        '1' => {
            proof {
                reveal_strlit("1");
            }
            "1"
        },
        '2' => {
            proof {
                reveal_strlit("2");
            }
            "2"
        },
        '3' => {
            proof {
                reveal_strlit("3");
            }
            "3"
        },
        '4' => {
            proof {
                reveal_strlit("4");
            }
            "4"
        },
        '5' => {
            proof {
                reveal_strlit("5");
            }
            "5"
        },
        '6' => {
            proof {
                reveal_strlit("6");
            }
            "6"
        },
        '7' => {
            proof {
                reveal_strlit("7");
            }
            "7"
        },
        '8' => {
            proof {
                reveal_strlit("8");
            }
            "8"
        },
        '9' => {
            proof {
                reveal_strlit("9");
            }
            "9"
        },
        '/' => {
            proof {
                reveal_strlit("/");
            }
            "/"
        },
        ' ' => {
            proof {
                reveal_strlit(" ");
            }
            " "
        },
        '-' => {
            proof {
                reveal_strlit("-");
            }
            "-"
        },
        'w' => {
            proof {
                reveal_strlit("w");
            }
            "w"
        },
        'x' => {
            proof {
                reveal_strlit("x");
            }
            "x"
        },
        'O' => {
            proof {
                reveal_strlit("O");
            }
            "O"
        },
        'a' => {
            proof {
                reveal_strlit("a");
            }
            "a"
        },
        'c' => {
            proof {
                reveal_strlit("c");
            }
            "c"
        },
        'd' => {
            proof {
                reveal_strlit("d");
            }
            "d"
        },
        'e' => {
            proof {
                reveal_strlit("e");
            }
            "e"
        },
        'f' => {
            proof {
                reveal_strlit("f");
            }
            "f"
        },
        'g' => {
            proof {
                reveal_strlit("g");
            }
            "g"
        },
        _ => {
            proof {
                reveal_strlit("h");
            }
            assert(c == 'h');
            "h"
        },
    }
}

/// Appends one serialization character to `out`.
pub fn push_char(out: &mut String, c: char)
    requires
        fen_char(c),
    ensures
        final(out)@ == old(out)@ + seq![c],
{
    let piece = char_str(c);
    out.append(piece);
    proof {
        assert(old(out)@ + piece@ =~= old(out)@ + seq![c]);
    }
}

} // verus!
