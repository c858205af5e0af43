//! Text helpers: ordering, whitespace, trimming, word extraction and decimal
//! rendering, each specified over `Seq<char>`.
use vstd::prelude::*;
use vstd::std_specs::iter::IteratorSpec;
use vstd::string::StringExecFns;

verus! {

/// The characters with the Unicode `White_Space` property.
pub open spec fn is_space(c: char) -> bool {
    let n = c as u32;
    ||| 0x09 <= n <= 0x0D
    ||| n == 0x20
    ||| n == 0x85
    ||| n == 0xA0
    ||| n == 0x1680
    ||| 0x2000 <= n <= 0x200A
    ||| n == 0x2028
    ||| n == 0x2029
    ||| n == 0x202F
    ||| n == 0x205F
    ||| n == 0x3000
}

/// The line feed, which ends a line.
pub open spec fn is_line_feed(c: char) -> bool {
    c == '\n'
}

/// Length of the longest prefix of `s` whose characters all satisfy `p`.
pub open spec fn run_len(s: Seq<char>, p: spec_fn(char) -> bool) -> nat
    decreases s.len(),
{
    if s.len() > 0 && p(s[0]) {
        1 + run_len(s.drop_first(), p)
    } else {
        0
    }
}

/// Length of the longest suffix of `s` whose characters all satisfy `p`.
pub open spec fn tail_len(s: Seq<char>, p: spec_fn(char) -> bool) -> nat
    decreases s.len(),
{
    if s.len() > 0 && p(s.last()) {
        1 + tail_len(s.drop_last(), p)
    } else {
        0
    }
}

/// `s` without its leading and trailing whitespace.
pub open spec fn trimmed(s: Seq<char>) -> Seq<char> {
    let t = s.skip(run_len(s, |c: char| is_space(c)) as int);
    t.take(t.len() - tail_len(t, |c: char| is_space(c)))
}

/// The first whitespace-delimited word of `s`; empty when `s` is blank.
pub open spec fn first_word(s: Seq<char>) -> Seq<char> {
    let t = s.skip(run_len(s, |c: char| is_space(c)) as int);
    t.take(run_len(t, |c: char| !is_space(c)) as int)
}

/// The part of `s` before its first line feed.
pub open spec fn first_line(s: Seq<char>) -> Seq<char> {
    s.take(run_len(s, |c: char| !is_line_feed(c)) as int)
}

/// The first word of every line of `s`, in order, lines without a word left out.
pub open spec fn line_heads(s: Seq<char>) -> Seq<Seq<char>>
    decreases s.len(),
{
    let line = first_line(s);
    let head = first_word(line);
    let rest = if line.len() < s.len() {
        line_heads(s.skip(line.len() as int + 1))
    } else {
        Seq::<Seq<char>>::empty()
    };
    if head.len() > 0 {
        seq![head] + rest
    } else {
        rest
    }
}

/// Strict lexicographic order on text, character by character, by code point.
pub open spec fn text_lt(a: Seq<char>, b: Seq<char>) -> bool
    decreases a.len(),
{
    if b.len() == 0 {
        false
    } else if a.len() == 0 {
        true
    } else if a[0] != b[0] {
        a[0] < b[0]
    } else {
        text_lt(a.drop_first(), b.drop_first())
    }
}

/// The decimal digit `d` as text.
pub open spec fn digit_text(d: nat) -> Seq<char> {
    if d == 0 {
        "0"@
    } else if d == 1 {
        "1"@
    } else if d == 2 {
        "2"@
    } else if d == 3 {
        "3"@
    } else if d == 4 {
        "4"@
    } else if d == 5 {
        "5"@
    } else if d == 6 {
        "6"@
    } else if d == 7 {
        "7"@
    } else if d == 8 {
        "8"@
    } else {
        "9"@
    }
}

/// `n` written in decimal without leading zeros.
pub open spec fn decimal_text(n: nat) -> Seq<char>
    decreases n,
{
    if n < 10 {
        digit_text(n)
    } else {
        decimal_text(n / 10) + digit_text(n % 10)
    }
}

/// If the first `k` characters of `s` satisfy `p` and the next one, if any, does
/// not, the run of `p` at the front of `s` has length `k`.
pub proof fn lemma_run_len(s: Seq<char>, p: spec_fn(char) -> bool, k: int)
    requires
        0 <= k <= s.len(),
        forall|i: int| 0 <= i < k ==> p(#[trigger] s[i]),
        k < s.len() ==> !p(s[k]),
    ensures
        run_len(s, p) == k,
    decreases k,
{
    if k > 0 {
        let t = s.drop_first();
        assert forall|i: int| 0 <= i < k - 1 implies p(#[trigger] t[i]) by {
            assert(t[i] == s[i + 1]);
        }
        lemma_run_len(t, p, k - 1);
    }
}

/// If the last `k` characters of `s` satisfy `p` and the one before them, if
/// any, does not, the run of `p` at the back of `s` has length `k`.
pub proof fn lemma_tail_len(s: Seq<char>, p: spec_fn(char) -> bool, k: int)
    requires
        0 <= k <= s.len(),
        forall|i: int| s.len() - k <= i < s.len() ==> p(#[trigger] s[i]),
        k < s.len() ==> !p(s[s.len() - k - 1]),
    ensures
        tail_len(s, p) == k,
    decreases k,
{
    if k > 0 {
        let t = s.drop_last();
        assert forall|i: int| t.len() - (k - 1) <= i < t.len() implies p(#[trigger] t[i]) by {
            assert(t[i] == s[i]);
        }
        assert(k - 1 < t.len() ==> t[t.len() - (k - 1) - 1] == s[s.len() - k - 1]);
        lemma_tail_len(t, p, k - 1);
    }
}

/// No text sorts before itself.
pub proof fn lemma_text_lt_irreflexive(a: Seq<char>)
    ensures
        !text_lt(a, a),
    decreases a.len(),
{
    if a.len() > 0 {
        lemma_text_lt_irreflexive(a.drop_first());
    }
}

/// The order on text is transitive.
pub proof fn lemma_text_lt_transitive(a: Seq<char>, b: Seq<char>, c: Seq<char>)
    requires
        text_lt(a, b),
        text_lt(b, c),
    ensures
        text_lt(a, c),
    decreases a.len(),
{
    if a.len() > 0 && a[0] == b[0] && b[0] == c[0] {
        lemma_text_lt_transitive(a.drop_first(), b.drop_first(), c.drop_first());
    }
}

/// Of two different texts one sorts before the other.
pub proof fn lemma_text_lt_connected(a: Seq<char>, b: Seq<char>)
    requires
        a != b,
    ensures
        text_lt(a, b) || text_lt(b, a),
    decreases a.len(),
{
    if a.len() > 0 && b.len() > 0 && a[0] == b[0] {
        if a.drop_first() == b.drop_first() {
            assert(a =~= seq![a[0]] + a.drop_first());
            assert(b =~= seq![b[0]] + b.drop_first());
        }
        lemma_text_lt_connected(a.drop_first(), b.drop_first());
    } else if a.len() == 0 && b.len() == 0 {
        assert(a =~= b);
    }
}

/// If `a` does not sort before `b`, nor `b` before `c`, then `a` does not sort
/// before `c`.
pub proof fn lemma_text_lt_negatively_transitive(a: Seq<char>, b: Seq<char>, c: Seq<char>)
    requires
        !text_lt(a, b),
        !text_lt(b, c),
    ensures
        !text_lt(a, c),
{
    if text_lt(a, c) {
        if a == b {
        } else {
            lemma_text_lt_connected(a, b);
            lemma_text_lt_transitive(b, a, c);
        }
    }
}

/// If `a` sorts before `b`, `b` does not sort before `a`.
pub proof fn lemma_text_lt_asymmetric(a: Seq<char>, b: Seq<char>)
    requires
        text_lt(a, b),
    ensures
        !text_lt(b, a),
{
    if text_lt(b, a) {
        lemma_text_lt_transitive(a, b, a);
        lemma_text_lt_irreflexive(a);
    }
}

/// Whether `c` is whitespace.
pub fn is_whitespace(c: char) -> (r: bool)
    ensures
        r == is_space(c),
{
    let n: u32 = c as u32;
    (0x09 <= n && n <= 0x0D) || n == 0x20 || n == 0x85 || n == 0xA0 || n == 0x1680 || (0x2000 <= n
        && n <= 0x200A) || n == 0x2028 || n == 0x2029 || n == 0x202F || n == 0x205F || n == 0x3000
}

/// The characters of `s`, one by one.
pub fn chars_of(s: &str) -> (v: Vec<char>)
    ensures
        v@ == s@,
{
    let mut v: Vec<char> = Vec::new();
    let mut it = s.chars();
    let ghost mut rest: Seq<char> = s@;
    loop
        invariant
            it.remaining() == rest,
            v@ + rest == s@,
        decreases rest.len(),
    {
        match it.next() {
            None => {
                assert(v@ + rest =~= v@);
                return v;
            },
            Some(c) => {
                proof {
                    assert(v@.push(c) + rest.drop_first() =~= v@ + rest);
                    rest = rest.drop_first();
                }
                v.push(c);
            },
        }
    }
}

/// Whether `a` sorts strictly before `b`.
pub fn precedes(a: &str, b: &str) -> (r: bool)
    ensures
        r == text_lt(a@, b@),
{
    let mut xs = a.chars();
    let mut ys = b.chars();
    let ghost mut ra: Seq<char> = a@;
    let ghost mut rb: Seq<char> = b@;
    loop
        invariant
            xs.remaining() == ra,
            ys.remaining() == rb,
            text_lt(a@, b@) == text_lt(ra, rb),
        decreases ra.len(),
    {
        let x = xs.next();
        let y = ys.next();
        match (x, y) {
            (_, None) => {
                return false;
            },
            (None, Some(_)) => {
                return true;
            },
            (Some(c), Some(d)) => {
                if c != d {
                    return c < d;
                }
                proof {
                    ra = ra.drop_first();
                    rb = rb.drop_first();
                }
            },
        }
    }
}

/// Whether `a` and `b` are the same text.
pub fn same_text(a: &str, b: &str) -> (r: bool)
    ensures
        r == (a@ == b@),
{
    let mut xs = a.chars();
    let mut ys = b.chars();
    let ghost mut n: int = 0;
    loop
        invariant
            0 <= n <= a@.len(),
            n <= b@.len(),
            xs.remaining() == a@.skip(n),
            ys.remaining() == b@.skip(n),
            a@.take(n) == b@.take(n),
        decreases a@.len() - n,
    {
        let x = xs.next();
        let y = ys.next();
        match (x, y) {
            (None, None) => {
                assert(a@.take(n) =~= a@);
                assert(b@.take(n) =~= b@);
                return true;
            },
            (Some(c), Some(d)) => {
                assert(c == a@[n] && d == b@[n]);
                if c != d {
                    return false;
                }
                proof {
                    assert(a@.skip(n).drop_first() =~= a@.skip(n + 1));
                    assert(b@.skip(n).drop_first() =~= b@.skip(n + 1));
                    assert(a@.take(n + 1) =~= a@.take(n).push(c));
                    assert(b@.take(n + 1) =~= b@.take(n).push(d));
                    n = n + 1;
                }
            },
            _ => {
                assert(a@.len() != b@.len());
                return false;
            },
        }
    }
}

/// Whether `s` begins with `prefix`.
pub fn starts_with(s: &str, prefix: &str) -> (r: bool)
    ensures
        r == prefix@.is_prefix_of(s@),
{
    let mut xs = s.chars();
    let mut ps = prefix.chars();
    let ghost mut n: int = 0;
    loop
        invariant
            0 <= n <= s@.len(),
            n <= prefix@.len(),
            xs.remaining() == s@.skip(n),
            ps.remaining() == prefix@.skip(n),
            s@.take(n) == prefix@.take(n),
        decreases prefix@.len() - n,
    {
        match ps.next() {
            None => {
                assert(prefix@.take(n) =~= prefix@);
                assert(s@.subrange(0, prefix@.len() as int) =~= s@.take(n));
                return true;
            },
            Some(p) => {
                assert(p == prefix@[n]);
                match xs.next() {
                    None => {
                        return false;
                    },
                    Some(c) => {
                        assert(c == s@[n]);
                        if c != p {
                            assert(prefix@.is_prefix_of(s@) ==> s@.subrange(
                                0,
                                prefix@.len() as int,
                            )[n] == prefix@[n]);
                            return false;
                        }
                        proof {
                            assert(s@.skip(n).drop_first() =~= s@.skip(n + 1));
                            assert(prefix@.skip(n).drop_first() =~= prefix@.skip(n + 1));
                            assert(s@.take(n + 1) =~= s@.take(n).push(c));
                            assert(prefix@.take(n + 1) =~= prefix@.take(n).push(p));
                            n = n + 1;
                        }
                    },
                }
            },
        }
    }
}

/// `s` without leading and trailing whitespace.
pub fn trim(s: &str) -> (r: String)
    ensures
        r@ == trimmed(s@),
{
    let cs = chars_of(s);
    let n = cs.len();
    let mut start: usize = 0;
    while start < n && is_whitespace(cs[start])
        invariant
            n == cs@.len(),
            start <= n,
            forall|i: int| 0 <= i < start ==> is_space(#[trigger] cs@[i]),
        decreases n - start,
    {
        start += 1;
    }
    let mut end: usize = n;
    while end > start && is_whitespace(cs[end - 1])
        invariant
            n == cs@.len(),
            start <= end <= n,
            forall|i: int| end <= i < n ==> is_space(#[trigger] cs@[i]),
        decreases end,
    {
        end -= 1;
    }
    proof {
        let space = |c: char| is_space(c);
        lemma_run_len(cs@, space, start as int);
        let t = cs@.skip(start as int);
        assert forall|i: int| t.len() - (n - end) <= i < t.len() implies space(#[trigger] t[i]) by {
            assert(t[i] == cs@[i + start]);
        }
        lemma_tail_len(t, space, n - end);
        assert(t.take(t.len() - (n - end)) =~= s@.subrange(start as int, end as int));
    }
    s.substring_char(start, end).to_owned()
}

/// The first word of every line of `s`, in order; lines without a word give none.
pub fn first_words(s: &str) -> (names: Vec<String>)
    ensures
        names.deep_view() == line_heads(s@),
{
    let cs = chars_of(s);
    let n = cs.len();
    let mut names: Vec<String> = Vec::new();
    let mut p: usize = 0;
    proof {
        assert(s@.skip(0) =~= s@);
        assert(names.deep_view() =~= Seq::<Seq<char>>::empty());
        assert(names.deep_view() + line_heads(s@) =~= line_heads(s@));
    }
    loop
        invariant
            n == cs@.len(),
            cs@ == s@,
            p <= n,
            names.deep_view() + line_heads(s@.skip(p as int)) == line_heads(s@),
        decreases n - p,
    {
        let mut q: usize = p;
        while q < n && cs[q] != '\n' && is_whitespace(cs[q])
            invariant
                n == cs@.len(),
                p <= q <= n,
                forall|i: int| p <= i < q ==> is_space(#[trigger] cs@[i]) && cs@[i] != '\n',
            decreases n - q,
        {
            q += 1;
        }
        let mut w: usize = q;
        while w < n && !is_whitespace(cs[w])
            invariant
                n == cs@.len(),
                q <= w <= n,
                forall|i: int| q <= i < w ==> !is_space(#[trigger] cs@[i]),
            decreases n - w,
        {
            w += 1;
        }
        let mut e: usize = w;
        while e < n && cs[e] != '\n'
            invariant
                n == cs@.len(),
                w <= e <= n,
                forall|i: int| w <= i < e ==> cs@[i] != '\n',
            decreases n - e,
        {
            e += 1;
        }
        let ghost rest = s@.skip(p as int);
        let ghost line = first_line(rest);
        proof {
            let not_feed = |c: char| !is_line_feed(c);
            let space = |c: char| is_space(c);
            let word = |c: char| !is_space(c);
            assert forall|i: int| 0 <= i < e - p implies not_feed(#[trigger] rest[i]) by {
                assert(rest[i] == cs@[i + p]);
                if i + p >= q && i + p < w {
                    assert(!is_space(cs@[i + p]));
                }
            }
            lemma_run_len(rest, not_feed, e - p);
            assert(line =~= s@.subrange(p as int, e as int));
            assert forall|i: int| 0 <= i < q - p implies space(#[trigger] line[i]) by {
                assert(line[i] == cs@[i + p]);
            }
            if q < e {
                assert(line[q - p] == cs@[q as int]);
                if q < w {
                    assert(!is_space(cs@[q as int]));
                } else {
                    assert(cs@[q as int] == '\n' || !is_space(cs@[q as int]));
                }
            }
            lemma_run_len(line, space, q - p);
            let t = line.skip(q - p);
            assert(t =~= s@.subrange(q as int, e as int));
            assert forall|i: int| 0 <= i < w - q implies word(#[trigger] t[i]) by {
                assert(t[i] == cs@[i + q]);
            }
            if w < e {
                assert(t[w - q] == cs@[w as int]);
            }
            lemma_run_len(t, word, w - q);
            assert(first_word(line) =~= s@.subrange(q as int, w as int));
        }
        if w > q {
            let name = s.substring_char(q, w).to_owned();
            proof {
                let ghost before = names.deep_view();
                assert(before.push(name@) + line_heads(s@.skip(e + 1)) =~= before + (seq![name@]
                    + line_heads(s@.skip(e + 1))));
            }
            let ghost before = names.deep_view();
            names.push(name);
            assert(names.deep_view() =~= before.push(name@));
        }
        if e < n {
            assert(rest.skip(line.len() as int + 1) =~= s@.skip(e + 1));
            p = e + 1;
        } else {
            assert(names.deep_view() + Seq::<Seq<char>>::empty() =~= names.deep_view());
            return names;
        }
    }
}

/// The text that `char::to_uppercase` yields for `c`.
pub uninterp spec fn uppercase_of(c: char) -> Seq<char>;

/// `s` with its first character in upper case.
pub open spec fn capitalized(s: Seq<char>) -> Seq<char> {
    if s.len() == 0 {
        s
    } else {
        uppercase_of(s[0]) + s.drop_first()
    }
}

/// `s` with `initial` in the place of its first character; empty when `s` is.
pub open spec fn initial_replaced(initial: Seq<char>, s: Seq<char>) -> Seq<char> {
    if s.len() == 0 {
        s
    } else {
        initial + s.drop_first()
    }
}

/// Calls `char::to_uppercase`, which maps a character to its upper case by the
/// Unicode tables and may yield more than one character. The result depends on
/// the character alone; the contract gives it its name and claims nothing else.
#[verifier::external_body]
fn upper(c: char) -> (r: String)
    ensures
        r@ == uppercase_of(c),
{
    c.to_uppercase().collect()
}

/// `s` with `initial` in the place of its first character; empty when `s` is.
pub fn replace_initial(initial: &str, s: &str) -> (r: String)
    ensures
        r@ == initial_replaced(initial@, s@),
{
    let n = s.unicode_len();
    if n == 0 {
        String::new()
    } else {
        assert(s@.subrange(1, n as int) =~= s@.drop_first());
        initial.to_owned().concat(s.substring_char(1, n))
    }
}

/// `s` with its first character in upper case.
pub fn capitalize(s: &str) -> (r: String)
    ensures
        r@ == capitalized(s@),
{
    if s.unicode_len() == 0 {
        String::new()
    } else {
        let initial = upper(s.get_char(0));
        replace_initial(initial.as_str(), s)
    }
}

/// `n` in decimal.
pub fn decimal(n: usize) -> (r: String)
    ensures
        r@ == decimal_text(n as nat),
{
    let mut rest: usize = n / 10;
    let mut out: String = digit(n % 10).to_owned();
    while rest > 0
        invariant
            decimal_text(n as nat) == if rest == 0 {
                out@
            } else {
                decimal_text(rest as nat) + out@
            },
        decreases rest,
    {
        let ghost old_out = out@;
        out = digit(rest % 10).to_owned().concat(out.as_str());
        proof {
            let r = rest as nat;
            if r >= 10 {
                assert(decimal_text(r) + old_out =~= decimal_text(r / 10) + (digit_text(r % 10)
                    + old_out));
            }
        }
        rest = rest / 10;
    }
    out
}

/// The text of one decimal digit.
fn digit(d: usize) -> (r: &'static str)
    requires
        d < 10,
    ensures
        r@ == digit_text(d as nat),
{
    if d == 0 {
        "0"
    } else if d == 1 {
        "1"
    } else if d == 2 {
        "2"
    } else if d == 3 {
        "3"
    } else if d == 4 {
        "4"
    } else if d == 5 {
        "5"
    } else if d == 6 {
        "6"
    } else if d == 7 {
        "7"
    } else if d == 8 {
        "8"
    } else {
        "9"
    }
}

} // verus!
