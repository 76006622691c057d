//! Text toolkit: specification-level string functions (over `Seq<char>`)
//! and verified executable counterparts, shared by all modules that parse
//! or format the output of system tools.
use vstd::prelude::*;

verus! {

/// Whitespace as recognised when splitting fields out of tool output.
pub open spec fn is_ws(c: char) -> bool {
    c == ' ' || c == '\t' || c == '\n' || c == '\r'
}

/// True when `c` is a decimal digit.
pub open spec fn is_digit(c: char) -> bool {
    48 <= c as int && c as int <= 57
}

/// The value of the digit `c`.
pub open spec fn digit_val(c: char) -> nat {
    (c as int - 48) as nat
}

/// True when every character of `s` is a decimal digit.
pub open spec fn all_digits(s: Seq<char>) -> bool {
    forall|k: int| 0 <= k < s.len() ==> is_digit(s[k])
}

/// The number that the digit string `s` denotes.
pub open spec fn digits_val(s: Seq<char>) -> nat
    decreases s.len(),
{
    if s.len() == 0 {
        0
    } else {
        digits_val(s.drop_last()) * 10 + digit_val(s.last())
    }
}

/// What parsing `s` as an unsigned 64-bit number gives: the digits'
/// value when `s` is one or more digits and the value fits, nothing
/// otherwise.
pub open spec fn parsed_u64(s: Seq<char>) -> Option<u64> {
    if s.len() > 0 && all_digits(s) && digits_val(s) <= u64::MAX {
        Some(digits_val(s) as u64)
    } else {
        None
    }
}

/// The digit character for `d`.
pub open spec fn digit_chr(d: nat) -> char {
    if d == 0 {
        '0'
    } else if d == 1 {
        '1'
    } else if d == 2 {
        '2'
    } else if d == 3 {
        '3'
    } else if d == 4 {
        '4'
    } else if d == 5 {
        '5'
    } else if d == 6 {
        '6'
    } else if d == 7 {
        '7'
    } else if d == 8 {
        '8'
    } else {
        '9'
    }
}

/// The decimal digit string for `n`, without leading zeros.
pub open spec fn dec_str(n: nat) -> Seq<char>
    decreases n,
{
    if n < 10 {
        seq![digit_chr(n)]
    } else {
        dec_str(n / 10).push(digit_chr(n % 10))
    }
}

/// A number of tenths written with one decimal place.
pub open spec fn tenths_str(t: nat) -> Seq<char> {
    dec_str(t / 10) + seq!['.', digit_chr(t % 10)]
}

/// True when `p` stands at the front of `s`.
pub open spec fn has_prefix(s: Seq<char>, p: Seq<char>) -> bool {
    p.len() <= s.len() && s.subrange(0, p.len() as int) == p
}

/// True when `sub` occurs somewhere in `s`.
pub open spec fn contains_at(s: Seq<char>, sub: Seq<char>, j: int) -> bool {
    0 <= j && j + sub.len() <= s.len() && s.subrange(j, j + sub.len()) == sub
}

/// True when `sub` occurs somewhere in `s`.
pub open spec fn has_substring(s: Seq<char>, sub: Seq<char>) -> bool {
    exists|j: int| contains_at(s, sub, j)
}

/// `s` without its leading whitespace.
pub open spec fn trim_left(s: Seq<char>) -> Seq<char>
    decreases s.len(),
{
    if s.len() == 0 {
        s
    } else if is_ws(s[0]) {
        trim_left(s.drop_first())
    } else {
        s
    }
}

/// `s` without its trailing whitespace.
pub open spec fn trim_right(s: Seq<char>) -> Seq<char>
    decreases s.len(),
{
    if s.len() == 0 {
        s
    } else if is_ws(s.last()) {
        trim_right(s.drop_last())
    } else {
        s
    }
}

/// `s` without leading and trailing whitespace.
pub open spec fn trimmed(s: Seq<char>) -> Seq<char> {
    trim_right(trim_left(s))
}

/// A line as reported once its terminator is reached: a trailing
/// carriage return is dropped.
pub open spec fn finish_line(cur: Seq<char>) -> Seq<char> {
    if cur.len() > 0 && cur.last() == '\r' {
        cur.drop_last()
    } else {
        cur
    }
}

/// The lines of `s`, splitting at each newline, dropping a carriage
/// return just before a newline, and keeping an unterminated final
/// line only when it is not empty. `cur` carries the line being read.
pub open spec fn lines_rec(s: Seq<char>, cur: Seq<char>) -> Seq<Seq<char>>
    decreases s.len(),
{
    if s.len() == 0 {
        if cur.len() == 0 {
            Seq::empty()
        } else {
            seq![cur]
        }
    } else if s[0] == '\n' {
        seq![finish_line(cur)] + lines_rec(s.drop_first(), Seq::empty())
    } else {
        lines_rec(s.drop_first(), cur.push(s[0]))
    }
}

/// The lines of `s`.
pub open spec fn line_seq(s: Seq<char>) -> Seq<Seq<char>> {
    lines_rec(s, Seq::empty())
}

/// The whitespace-separated tokens of `s`. `cur` carries the token
/// being read.
pub open spec fn tokens_rec(s: Seq<char>, cur: Seq<char>) -> Seq<Seq<char>>
    decreases s.len(),
{
    if s.len() == 0 {
        if cur.len() == 0 {
            Seq::empty()
        } else {
            seq![cur]
        }
    } else if is_ws(s[0]) {
        if cur.len() == 0 {
            tokens_rec(s.drop_first(), Seq::empty())
        } else {
            seq![cur] + tokens_rec(s.drop_first(), Seq::empty())
        }
    } else {
        tokens_rec(s.drop_first(), cur.push(s[0]))
    }
}

/// The whitespace-separated tokens of `s`.
pub open spec fn token_seq(s: Seq<char>) -> Seq<Seq<char>> {
    tokens_rec(s, Seq::empty())
}

/// The first entry of `ls` satisfying `p`, scanning from the front.
pub open spec fn first_match(ls: Seq<Seq<char>>, p: spec_fn(Seq<char>) -> bool) -> Option<
    Seq<char>,
>
    decreases ls.len(),
{
    if ls.len() == 0 {
        None
    } else if p(ls[0]) {
        Some(ls[0])
    } else {
        first_match(ls.drop_first(), p)
    }
}

/// The last entry of `ls` satisfying `p`.
pub open spec fn last_match(ls: Seq<Seq<char>>, p: spec_fn(Seq<char>) -> bool) -> Option<Seq<char>>
    decreases ls.len(),
{
    if ls.len() == 0 {
        None
    } else if p(ls.last()) {
        Some(ls.last())
    } else {
        last_match(ls.drop_last(), p)
    }
}

/// Scanning one entry further from the front advances `first_match`
/// by one step.
pub proof fn lemma_first_match_step(ls: Seq<Seq<char>>, i: int, p: spec_fn(Seq<char>) -> bool)
    requires
        0 <= i < ls.len(),
    ensures
        first_match(ls.skip(i), p) == if p(ls[i]) {
            Some(ls[i])
        } else {
            first_match(ls.skip(i + 1), p)
        },
{
    assert(ls.skip(i).len() == ls.len() - i);
    assert(ls.skip(i)[0] == ls[i]);
    assert(ls.skip(i).drop_first() =~= ls.skip(i + 1));
}

/// Taking one entry more at the end advances `last_match` by one
/// step.
pub proof fn lemma_last_match_step(ls: Seq<Seq<char>>, i: int, p: spec_fn(Seq<char>) -> bool)
    requires
        0 <= i < ls.len(),
    ensures
        last_match(ls.take(i + 1), p) == if p(ls[i]) {
            Some(ls[i])
        } else {
            last_match(ls.take(i), p)
        },
{
    assert(ls.take(i + 1).last() == ls[i]);
    assert(ls.take(i + 1).drop_last() =~= ls.take(i));
}

/// How many entries of `ls` satisfy `p`.
pub open spec fn count_match(ls: Seq<Seq<char>>, p: spec_fn(Seq<char>) -> bool) -> nat
    decreases ls.len(),
{
    if ls.len() == 0 {
        0
    } else {
        count_match(ls.drop_last(), p) + (if p(ls.last()) {
            1nat
        } else {
            0nat
        })
    }
}

/// Counting one entry more advances `count_match` by one step.
pub proof fn lemma_count_match_step(ls: Seq<Seq<char>>, i: int, p: spec_fn(Seq<char>) -> bool)
    requires
        0 <= i < ls.len(),
    ensures
        count_match(ls.take(i + 1), p) == count_match(ls.take(i), p) + (if p(ls[i]) {
            1nat
        } else {
            0nat
        }),
{
    assert(ls.take(i + 1).last() == ls[i]);
    assert(ls.take(i + 1).drop_last() =~= ls.take(i));
}

/// `s` with every repetition of the prefix `p` removed from the
/// front.
pub open spec fn strip_prefix_all(s: Seq<char>, p: Seq<char>) -> Seq<char>
    decreases s.len(),
{
    if p.len() > 0 && has_prefix(s, p) {
        strip_prefix_all(s.skip(p.len() as int), p)
    } else {
        s
    }
}

proof fn lemma_skip_one(s: Seq<char>, i: int)
    requires
        0 <= i < s.len(),
    ensures
        s.skip(i).len() == s.len() - i,
        s.skip(i)[0] == s[i],
        s.skip(i).drop_first() =~= s.skip(i + 1),
{
}

/// Reading one more character advances the line fold by one step.
proof fn lemma_lines_step(s: Seq<char>, i: int, cur: Seq<char>)
    requires
        0 <= i < s.len(),
    ensures
        lines_rec(s.skip(i), cur) == if s[i] == '\n' {
            seq![finish_line(cur)] + lines_rec(s.skip(i + 1), Seq::<char>::empty())
        } else {
            lines_rec(s.skip(i + 1), cur.push(s[i]))
        },
{
    lemma_skip_one(s, i);
}

/// Reading one more character advances the token fold by one step.
proof fn lemma_tokens_step(s: Seq<char>, i: int, cur: Seq<char>)
    requires
        0 <= i < s.len(),
    ensures
        tokens_rec(s.skip(i), cur) == if is_ws(s[i]) {
            if cur.len() == 0 {
                tokens_rec(s.skip(i + 1), Seq::<char>::empty())
            } else {
                seq![cur] + tokens_rec(s.skip(i + 1), Seq::<char>::empty())
            }
        } else {
            tokens_rec(s.skip(i + 1), cur.push(s[i]))
        },
{
    lemma_skip_one(s, i);
}

/// Skipping over leading whitespace does not change what trimming
/// from the left leaves.
proof fn lemma_trim_left_skip(s: Seq<char>, a: int)
    requires
        0 <= a <= s.len(),
        forall|k: int| 0 <= k < a ==> is_ws(s[k]),
    ensures
        trim_left(s) == trim_left(s.skip(a)),
    decreases a,
{
    if a == 0 {
        assert(s.skip(0) =~= s);
    } else {
        assert(is_ws(s[0]));
        assert(s.drop_first() =~= s.skip(1));
        lemma_trim_left_skip(s.skip(1), a - 1);
        assert(s.skip(1).skip(a - 1) =~= s.skip(a));
    }
}

/// Dropping trailing whitespace does not change what trimming from
/// the right leaves.
proof fn lemma_trim_right_take(s: Seq<char>, b: int)
    requires
        0 <= b <= s.len(),
        forall|k: int| b <= k < s.len() ==> is_ws(s[k]),
    ensures
        trim_right(s) == trim_right(s.take(b)),
    decreases s.len() - b,
{
    if b == s.len() {
        assert(s.take(b) =~= s);
    } else {
        assert(is_ws(s.last()));
        assert(s.drop_last() =~= s.take(s.len() - 1));
        lemma_trim_right_take(s.take(s.len() - 1), b);
        assert(s.take(s.len() - 1).take(b) =~= s.take(b));
    }
}

/// Whether `c` counts as whitespace.
pub fn ws_char(c: char) -> (r: bool)
    ensures
        r == is_ws(c),
{
    c == ' ' || c == '\t' || c == '\n' || c == '\r'
}

/// `s` with leading and trailing whitespace removed.
pub fn trim(s: &str) -> (r: String)
    ensures
        r@ == trimmed(s@),
{
    let n = s.unicode_len();
    let mut a: usize = 0;
    while a < n && ws_char(s.get_char(a))
        invariant
            0 <= a <= n,
            n == s@.len(),
            forall|k: int| 0 <= k < a ==> is_ws(s@[k]),
        decreases n - a,
    {
        a = a + 1;
    }
    proof {
        lemma_trim_left_skip(s@, a as int);
    }
    if a == n {
        assert(trim_left(s@) == Seq::<char>::empty()) by {
            assert(s@.skip(a as int) =~= Seq::<char>::empty());
        }
        assert(trimmed(s@) =~= Seq::<char>::empty());
        let r = String::new();
        return r;
    }
    assert(!is_ws(s@[a as int]));
    assert(trim_left(s@) == s@.skip(a as int)) by {
        assert(s@.skip(a as int)[0] == s@[a as int]);
    }
    let mut b: usize = n;
    while b > a && ws_char(s.get_char(b - 1))
        invariant
            a <= b <= n,
            n == s@.len(),
            a < n,
            !is_ws(s@[a as int]),
            forall|k: int| b <= k < n ==> is_ws(s@[k]),
        decreases b,
    {
        b = b - 1;
    }
    assert(b > a);
    assert(!is_ws(s@[b - 1]));
    let ghost t = s@.skip(a as int);
    proof {
        assert(forall|k: int| b - a <= k < t.len() ==> is_ws(t[k]));
        lemma_trim_right_take(t, b - a);
        assert(t.take(b - a).last() == s@[b - 1]);
        assert(trim_right(t.take(b - a)) == t.take(b - a));
        assert(t.take(b - a) =~= s@.subrange(a as int, b as int));
    }
    let r = String::from_str(s.substring_char(a, b));
    r
}

/// `s` with leading whitespace removed.
pub fn trim_start(s: &str) -> (r: String)
    ensures
        r@ == trim_left(s@),
{
    let n = s.unicode_len();
    let mut a: usize = 0;
    while a < n && ws_char(s.get_char(a))
        invariant
            0 <= a <= n,
            n == s@.len(),
            forall|k: int| 0 <= k < a ==> is_ws(s@[k]),
        decreases n - a,
    {
        a = a + 1;
    }
    proof {
        lemma_trim_left_skip(s@, a as int);
        if a < n {
            assert(s@.skip(a as int)[0] == s@[a as int]);
        } else {
            assert(s@.skip(a as int) =~= Seq::<char>::empty());
        }
    }
    String::from_str(s.substring_char(a, n))
}

/// The whitespace-separated tokens of `s`, in order.
pub fn split_ws(s: &str) -> (r: Vec<String>)
    ensures
        r.deep_view() == token_seq(s@),
{
    let n = s.unicode_len();
    let mut r: Vec<String> = Vec::new();
    let mut i: usize = 0;
    let mut start: usize = 0;
    let mut in_tok = false;
    proof {
        assert(s@.skip(0) =~= s@);
        assert(r.deep_view() =~~= Seq::<Seq<char>>::empty());
        assert(r.deep_view() + tokens_rec(s@, Seq::<char>::empty()) =~~= tokens_rec(
            s@,
            Seq::<char>::empty(),
        ));
    }
    while i < n
        invariant
            0 <= i <= n,
            n == s@.len(),
            in_tok ==> 0 <= start < i,
            in_tok ==> forall|k: int| start <= k < i ==> !is_ws(s@[k]),
            token_seq(s@) == r.deep_view() + tokens_rec(
                s@.skip(i as int),
                if in_tok {
                    s@.subrange(start as int, i as int)
                } else {
                    Seq::<char>::empty()
                },
            ),
        decreases n - i,
    {
        let ghost cur = if in_tok {
            s@.subrange(start as int, i as int)
        } else {
            Seq::<char>::empty()
        };
        proof {
            lemma_tokens_step(s@, i as int, cur);
        }
        let c = s.get_char(i);
        if ws_char(c) {
            if in_tok {
                let piece = String::from_str(s.substring_char(start, i));
                let ghost old_dv = r.deep_view();
                r.push(piece);
                proof {
                    assert(r.deep_view() =~~= old_dv.push(cur));
                }
                in_tok = false;
            }
        } else {
            if !in_tok {
                start = i;
                in_tok = true;
            }
            proof {
                assert(s@.subrange(start as int, i as int + 1) =~= cur.push(s@[i as int]));
            }
        }
        i = i + 1;
    }
    proof {
        assert(s@.skip(n as int) =~= Seq::<char>::empty());
    }
    if in_tok {
        let piece = String::from_str(s.substring_char(start, n));
        let ghost old_dv = r.deep_view();
        let ghost cur = s@.subrange(start as int, n as int);
        r.push(piece);
        proof {
            assert(r.deep_view() =~~= old_dv.push(cur));
            assert(tokens_rec(Seq::<char>::empty(), cur) == seq![cur]);
            assert(old_dv + seq![cur] =~~= r.deep_view());
        }
    } else {
        proof {
            assert(tokens_rec(Seq::<char>::empty(), Seq::<char>::empty())
                == Seq::<Seq<char>>::empty());
            assert(r.deep_view() + Seq::<Seq<char>>::empty() =~~= r.deep_view());
        }
    }
    r
}

/// The lines of `s`, in order.
pub fn to_lines(s: &str) -> (r: Vec<String>)
    ensures
        r.deep_view() == line_seq(s@),
{
    let n = s.unicode_len();
    let mut r: Vec<String> = Vec::new();
    let mut i: usize = 0;
    let mut start: usize = 0;
    proof {
        assert(s@.skip(0) =~= s@);
        assert(s@.subrange(0, 0) =~= Seq::<char>::empty());
        assert(r.deep_view() =~~= Seq::<Seq<char>>::empty());
        assert(r.deep_view() + lines_rec(s@, Seq::<char>::empty()) =~~= lines_rec(
            s@,
            Seq::<char>::empty(),
        ));
    }
    while i < n
        invariant
            0 <= start <= i <= n,
            n == s@.len(),
            line_seq(s@) == r.deep_view() + lines_rec(
                s@.skip(i as int),
                s@.subrange(start as int, i as int),
            ),
        decreases n - i,
    {
        let ghost cur = s@.subrange(start as int, i as int);
        proof {
            lemma_lines_step(s@, i as int, cur);
        }
        let c = s.get_char(i);
        if c == '\n' {
            let stop = if i > start && s.get_char(i - 1) == '\r' {
                i - 1
            } else {
                i
            };
            proof {
                if i > start && s@[i as int - 1] == '\r' {
                    assert(cur.len() > 0 && cur.last() == '\r');
                    assert(cur.drop_last() =~= s@.subrange(start as int, i as int - 1));
                    assert(finish_line(cur) == s@.subrange(start as int, stop as int));
                } else {
                    assert(finish_line(cur) == cur);
                }
            }
            let piece = String::from_str(s.substring_char(start, stop));
            let ghost old_dv = r.deep_view();
            r.push(piece);
            proof {
                assert(r.deep_view() =~~= old_dv.push(finish_line(cur)));
            }
            start = i + 1;
            proof {
                assert(s@.subrange(start as int, i as int + 1) =~= Seq::<char>::empty());
            }
        } else {
            proof {
                assert(s@.subrange(start as int, i as int + 1) =~= cur.push(s@[i as int]));
            }
        }
        i = i + 1;
    }
    proof {
        assert(s@.skip(n as int) =~= Seq::<char>::empty());
    }
    if start < n {
        let piece = String::from_str(s.substring_char(start, n));
        let ghost old_dv = r.deep_view();
        let ghost cur = s@.subrange(start as int, n as int);
        r.push(piece);
        proof {
            assert(cur.len() > 0);
            assert(r.deep_view() =~~= old_dv.push(cur));
            assert(old_dv + seq![cur] =~~= r.deep_view());
        }
    } else {
        proof {
            assert(s@.subrange(start as int, n as int) =~= Seq::<char>::empty());
            assert(r.deep_view() + Seq::<Seq<char>>::empty() =~~= r.deep_view());
        }
    }
    r
}

/// Whether `s` starts with `p`.
pub fn starts_with(s: &str, p: &str) -> (r: bool)
    ensures
        r == has_prefix(s@, p@),
{
    let n = s.unicode_len();
    let m = p.unicode_len();
    if m > n {
        return false;
    }
    let mut i: usize = 0;
    while i < m
        invariant
            0 <= i <= m,
            m <= n,
            n == s@.len(),
            m == p@.len(),
            forall|k: int| 0 <= k < i ==> s@[k] == p@[k],
        decreases m - i,
    {
        if s.get_char(i) != p.get_char(i) {
            assert(s@.subrange(0, m as int)[i as int] != p@[i as int]);
            return false;
        }
        i = i + 1;
    }
    assert(s@.subrange(0, m as int) =~= p@);
    true
}

/// Whether `a` and `b` hold the same characters.
pub fn str_eq(a: &str, b: &str) -> (r: bool)
    ensures
        r == (a@ == b@),
{
    let n = a.unicode_len();
    let m = b.unicode_len();
    if n != m {
        return false;
    }
    let r = starts_with(a, b);
    proof {
        if r {
            assert(a@.subrange(0, m as int) =~= a@);
        } else {
            if a@ == b@ {
                assert(a@.subrange(0, m as int) =~= b@);
                assert(has_prefix(a@, b@));
            }
        }
    }
    r
}

/// Whether `sub` occurs in `s`.
pub fn contains_str(s: &str, sub: &str) -> (r: bool)
    ensures
        r == has_substring(s@, sub@),
{
    let n = s.unicode_len();
    let m = sub.unicode_len();
    if m > n {
        assert(forall|j: int| !contains_at(s@, sub@, j));
        return false;
    }
    if m == 0 {
        assert(s@.subrange(0, 0) =~= sub@);
        assert(contains_at(s@, sub@, 0));
        return true;
    }
    let mut j: usize = 0;
    while j <= n - m
        invariant
            0 <= j <= n - m + 1,
            1 <= m <= n,
            n == s@.len(),
            m == sub@.len(),
            forall|q: int| 0 <= q < j ==> !contains_at(s@, sub@, q),
        decreases n - m + 1 - j,
    {
        let mut i: usize = 0;
        let mut hit = true;
        while hit && i < m
            invariant
                0 <= i <= m,
                0 <= j <= n - m,
                n == s@.len(),
                m == sub@.len(),
                hit ==> forall|k: int| 0 <= k < i ==> s@[j + k] == sub@[k],
                !hit ==> !contains_at(s@, sub@, j as int),
            decreases m - i + (if hit { 1int } else { 0int }),
        {
            if s.get_char(j + i) != sub.get_char(i) {
                assert(s@.subrange(j as int, j + m as int)[i as int] != sub@[i as int]);
                hit = false;
            } else {
                i = i + 1;
            }
        }
        if hit {
            assert(i == m);
            assert(s@.subrange(j as int, j + m as int) =~= sub@);
            assert(contains_at(s@, sub@, j as int));
            return true;
        }
        assert(!contains_at(s@, sub@, j as int));
        j = j + 1;
    }
    assert(forall|q: int| q > n - m ==> !contains_at(s@, sub@, q));
    false
}

/// The value a digit string denotes only grows as the string grows.
proof fn lemma_digits_val_prefix(s: Seq<char>, j: int)
    requires
        0 <= j <= s.len(),
    ensures
        digits_val(s.take(j)) <= digits_val(s),
    decreases s.len() - j,
{
    if j == s.len() {
        assert(s.take(j) =~= s);
    } else {
        lemma_digits_val_prefix(s.drop_last(), j);
        assert(s.drop_last().take(j) =~= s.take(j));
        assert(digits_val(s) == digits_val(s.drop_last()) * 10 + digit_val(s.last()));
        assert(digits_val(s.drop_last()) * 10 >= digits_val(s.drop_last())) by (nonlinear_arith);
    }
}

/// Whether `c` is a decimal digit.
pub fn digit_test(c: char) -> (r: bool)
    ensures
        r == is_digit(c),
{
    let u = c as u32;
    48 <= u && u <= 57
}

/// The value of the digit `c`.
pub fn digit_of(c: char) -> (r: u64)
    requires
        is_digit(c),
    ensures
        r == digit_val(c),
{
    (c as u32 - 48) as u64
}

/// Parses `s` as an unsigned 64-bit number: one or more digits whose
/// value fits.
pub fn parse_u64(s: &str) -> (r: Option<u64>)
    ensures
        r == parsed_u64(s@),
{
    let n = s.unicode_len();
    if n == 0 {
        return None;
    }
    let mut val: u64 = 0;
    let mut i: usize = 0;
    proof {
        assert(s@.take(0) =~= Seq::<char>::empty());
    }
    while i < n
        invariant
            0 <= i <= n,
            n == s@.len(),
            forall|k: int| 0 <= k < i ==> is_digit(s@[k]),
            val == digits_val(s@.take(i as int)),
        decreases n - i,
    {
        let c = s.get_char(i);
        if !digit_test(c) {
            assert(!all_digits(s@));
            return None;
        }
        let d = digit_of(c);
        proof {
            assert(s@.take(i as int + 1).drop_last() =~= s@.take(i as int));
            assert(s@.take(i as int + 1).last() == s@[i as int]);
        }
        if val > (u64::MAX - d) / 10 {
            proof {
                assert(val * 10 + d > u64::MAX) by (nonlinear_arith)
                    requires
                        val > (u64::MAX - d) / 10,
                        d <= 9,
                ;
                assert(digits_val(s@.take(i as int + 1)) > u64::MAX);
                lemma_digits_val_prefix(s@, i as int + 1);
            }
            return None;
        }
        proof {
            assert(val * 10 + d <= u64::MAX) by (nonlinear_arith)
                requires
                    val <= (u64::MAX - d) / 10,
                    d <= 9,
            ;
        }
        val = val * 10 + d;
        i = i + 1;
    }
    proof {
        assert(s@.take(n as int) =~= s@);
    }
    Some(val)
}

/// The string for the single digit `d`.
fn digit_str(d: u64) -> (r: String)
    requires
        d < 10,
    ensures
        r@ == seq![digit_chr(d as nat)],
{
    let r = if d == 0 {
        proof {
            reveal_strlit("0");
        }
        String::from_str("0")
    } else if d == 1 {
        proof {
            reveal_strlit("1");
        }
        String::from_str("1")
    } else if d == 2 {
        proof {
            reveal_strlit("2");
        }
        String::from_str("2")
    } else if d == 3 {
        proof {
            reveal_strlit("3");
        }
        String::from_str("3")
    } else if d == 4 {
        proof {
            reveal_strlit("4");
        }
        String::from_str("4")
    } else if d == 5 {
        proof {
            reveal_strlit("5");
        }
        String::from_str("5")
    } else if d == 6 {
        proof {
            reveal_strlit("6");
        }
        String::from_str("6")
    } else if d == 7 {
        proof {
            reveal_strlit("7");
        }
        String::from_str("7")
    } else if d == 8 {
        proof {
            reveal_strlit("8");
        }
        String::from_str("8")
    } else {
        proof {
            reveal_strlit("9");
        }
        String::from_str("9")
    };
    proof {
        assert(r@ =~= seq![digit_chr(d as nat)]);
    }
    r
}

/// Writes `n` in decimal.
pub fn u64_to_string(n: u64) -> (r: String)
    ensures
        r@ == dec_str(n as nat),
    decreases n,
{
    if n < 10 {
        digit_str(n)
    } else {
        let mut s = u64_to_string(n / 10);
        let d = digit_str(n % 10);
        s.append(d.as_str());
        proof {
            assert(dec_str(n as nat / 10).push(digit_chr(n as nat % 10)) =~= dec_str(
                n as nat / 10,
            ) + seq![digit_chr(n as nat % 10)]);
        }
        s
    }
}

/// Parses `s` trimmed as an unsigned 64-bit number: how a counter
/// file's content is read.
pub fn parse_trimmed_u64(s: &str) -> (r: Option<u64>)
    ensures
        r == parsed_u64(trimmed(s@)),
{
    let t = trim(s);
    parse_u64(t.as_str())
}

/// The number a token denotes, or zero when it does not parse.
pub open spec fn parse_or_zero(t: Seq<char>) -> u64 {
    match parsed_u64(t) {
        Some(v) => v,
        None => 0,
    }
}

/// Parses `s`, giving zero when it is not a number that fits.
pub fn parse_u64_or_zero(s: &str) -> (r: u64)
    ensures
        r == parse_or_zero(s@),
{
    match parse_u64(s) {
        Some(v) => v,
        None => 0,
    }
}

/// `s` with every repetition of the prefix `p` removed from the
/// front.
pub fn strip_prefix_repeats(s: &str, p: &str) -> (r: String)
    ensures
        r@ == strip_prefix_all(s@, p@),
{
    let n = s.unicode_len();
    let m = p.unicode_len();
    if m == 0 {
        return String::from_str(s);
    }
    let mut k: usize = 0;
    let mut go = true;
    proof {
        assert(s@.skip(0) =~= s@);
    }
    while go
        invariant
            0 <= k <= n,
            n == s@.len(),
            m == p@.len(),
            1 <= m,
            strip_prefix_all(s@, p@) == strip_prefix_all(s@.skip(k as int), p@),
            !go ==> strip_prefix_all(s@.skip(k as int), p@) == s@.skip(k as int),
        decreases n - k + (if go { 1int } else { 0int }),
    {
        if m <= n && k <= n - m {
            let tail = s.substring_char(k, n);
            proof {
                assert(tail@ =~= s@.skip(k as int));
            }
            if starts_with(tail, p) {
                proof {
                    assert(s@.skip(k as int).skip(m as int) =~= s@.skip(k as int + m as int));
                }
                k = k + m;
            } else {
                go = false;
            }
        } else {
            proof {
                assert(s@.skip(k as int).len() < m);
                assert(!has_prefix(s@.skip(k as int), p@));
            }
            go = false;
        }
    }
    String::from_str(s.substring_char(k, n))
}

/// Writes a number of tenths with one decimal place.
pub fn tenths_to_string(t: u64) -> (r: String)
    ensures
        r@ == tenths_str(t as nat),
{
    let mut s = u64_to_string(t / 10);
    proof {
        reveal_strlit(".");
    }
    s.append(".");
    let d = digit_str(t % 10);
    s.append(d.as_str());
    proof {
        assert(s@ =~= tenths_str(t as nat));
    }
    s
}

/// Writes `n` in decimal.
pub fn u128_to_string(n: u128) -> (r: String)
    ensures
        r@ == dec_str(n as nat),
    decreases n,
{
    if n < 10 {
        digit_str((n % 10) as u64)
    } else {
        let mut s = u128_to_string(n / 10);
        let d = digit_str((n % 10) as u64);
        s.append(d.as_str());
        proof {
            assert(dec_str(n as nat / 10).push(digit_chr(n as nat % 10)) =~= dec_str(
                n as nat / 10,
            ) + seq![digit_chr(n as nat % 10)]);
        }
        s
    }
}

/// Writes a number of tenths with one decimal place.
pub fn tenths128_to_string(t: u128) -> (r: String)
    ensures
        r@ == tenths_str(t as nat),
{
    let mut s = u128_to_string(t / 10);
    proof {
        reveal_strlit(".");
    }
    s.append(".");
    let d = digit_str((t % 10) as u64);
    s.append(d.as_str());
    proof {
        assert(s@ =~= tenths_str(t as nat));
    }
    s
}

} // verus!
