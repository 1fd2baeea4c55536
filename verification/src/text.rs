//! Character-level text utilities: trimming, line splitting, ordering and
//! digit rendering, with full functional specifications.

use vstd::prelude::*;

verus! {

/// Whether `c` has the Unicode `White_Space` property (the set `str::trim`
/// removes).
pub open spec fn is_space_char(c: char) -> bool {
    ('\u{9}' <= c && c <= '\u{d}') || c == ' ' || c == '\u{85}' || c == '\u{a0}' || c
        == '\u{1680}' || ('\u{2000}' <= c && c <= '\u{200a}') || c == '\u{2028}' || c
        == '\u{2029}' || c == '\u{202f}' || c == '\u{205f}' || c == '\u{3000}'
}

/// Executable test for [`is_space_char`].
pub fn is_space(c: char) -> (r: bool)
    ensures
        r == is_space_char(c),
{
    ('\u{9}' <= c && c <= '\u{d}') || c == ' ' || c == '\u{85}' || c == '\u{a0}' || c
        == '\u{1680}' || ('\u{2000}' <= c && c <= '\u{200a}') || c == '\u{2028}' || c
        == '\u{2029}' || c == '\u{202f}' || c == '\u{205f}' || c == '\u{3000}'
}

/// `s` with leading white space removed.
pub open spec fn trim_start_spec(s: Seq<char>) -> Seq<char>
    decreases s.len(),
{
    if s.len() > 0 && is_space_char(s[0]) {
        trim_start_spec(s.drop_first())
    } else {
        s
    }
}

/// `s` with trailing white space removed.
pub open spec fn trim_end_spec(s: Seq<char>) -> Seq<char>
    decreases s.len(),
{
    if s.len() > 0 && is_space_char(s.last()) {
        trim_end_spec(s.drop_last())
    } else {
        s
    }
}

/// `s` with surrounding white space removed, as `str::trim` does.
pub open spec fn trim_spec(s: Seq<char>) -> Seq<char> {
    trim_end_spec(trim_start_spec(s))
}

/// The characters of a trimmed text are never white space at either end.
pub proof fn lemma_trim_end_no_tail_space(s: Seq<char>)
    ensures
        trim_end_spec(s).len() > 0 ==> !is_space_char(trim_end_spec(s).last()),
        trim_end_spec(s).len() <= s.len(),
    decreases s.len(),
{
    if s.len() > 0 && is_space_char(s.last()) {
        lemma_trim_end_no_tail_space(s.drop_last());
    }
}

/// The trimmed copy of the characters of `v`.
#[verifier::loop_isolation(false)]
pub fn trim_chars(v: &Vec<char>) -> (r: Vec<char>)
    ensures
        r@ == trim_spec(v@),
{
    let mut i: usize = 0;
    proof {
        assert(v@.skip(0) =~= v@);
    }
    while i < v.len() && is_space(v[i])
        invariant
            0 <= i <= v@.len(),
            trim_start_spec(v@) == trim_start_spec(v@.skip(i as int)),
        decreases v@.len() - i,
    {
        proof {
            assert(v@.skip(i as int).drop_first() =~= v@.skip(i as int + 1));
        }
        i = i + 1;
    }
    let ghost t = v@.skip(i as int);
    proof {
        assert(trim_start_spec(v@) == t);
        assert(v@.subrange(i as int, v@.len() as int) =~= t);
    }
    let mut j: usize = v.len();
    while j > i && is_space(v[j - 1])
        invariant
            i <= j <= v@.len(),
            trim_end_spec(t) == trim_end_spec(v@.subrange(i as int, j as int)),
        decreases j,
    {
        proof {
            assert(v@.subrange(i as int, j as int).drop_last() =~= v@.subrange(
                i as int,
                j as int - 1,
            ));
        }
        j = j - 1;
    }
    proof {
        assert(trim_end_spec(t) == v@.subrange(i as int, j as int));
    }
    let mut r: Vec<char> = Vec::new();
    let mut k: usize = i;
    while k < j
        invariant
            i <= k <= j,
            r@ =~= v@.subrange(i as int, k as int),
        decreases j - k,
    {
        r.push(v[k]);
        k = k + 1;
    }
    proof {
        assert(r@ =~= v@.subrange(i as int, j as int));
    }
    r
}

/// `s` with every leading occurrence of `c` removed, as
/// `str::trim_start_matches` does for a single-character pattern.
pub open spec fn strip_leading_spec(s: Seq<char>, c: char) -> Seq<char>
    decreases s.len(),
{
    if s.len() > 0 && s[0] == c {
        strip_leading_spec(s.drop_first(), c)
    } else {
        s
    }
}

/// The characters of `v` with every leading occurrence of `c` removed.
#[verifier::loop_isolation(false)]
pub fn strip_leading_chars(v: &Vec<char>, c: char) -> (r: Vec<char>)
    ensures
        r@ == strip_leading_spec(v@, c),
{
    let mut i: usize = 0;
    proof {
        assert(v@.skip(0) =~= v@);
    }
    while i < v.len() && v[i] == c
        invariant
            0 <= i <= v@.len(),
            strip_leading_spec(v@, c) == strip_leading_spec(v@.skip(i as int), c),
        decreases v@.len() - i,
    {
        proof {
            assert(v@.skip(i as int).drop_first() =~= v@.skip(i as int + 1));
        }
        i = i + 1;
    }
    let mut r: Vec<char> = Vec::new();
    let mut k: usize = i;
    while k < v.len()
        invariant
            i <= k <= v@.len(),
            r@ =~= v@.subrange(i as int, k as int),
        decreases v@.len() - k,
    {
        r.push(v[k]);
        k = k + 1;
    }
    proof {
        assert(r@ =~= v@.skip(i as int));
    }
    r
}

/// The characters of `s`, as a vector.
pub fn chars_of(s: &str) -> (r: Vec<char>)
    ensures
        r@ == s@,
{
    let mut r: Vec<char> = Vec::new();
    for c in it: s.chars()
        invariant
            it.seq() == s@,
            r@ =~= it.seq().take(it.index() as int),
    {
        r.push(c);
    }
    proof {
        assert(r@ =~= s@);
    }
    r
}

/// The characters of `v` without the first one.
#[verifier::loop_isolation(false)]
pub fn tail_chars(v: &Vec<char>) -> (r: Vec<char>)
    requires
        v@.len() >= 1,
    ensures
        r@ == v@.drop_first(),
{
    let mut r: Vec<char> = Vec::new();
    let mut k: usize = 1;
    while k < v.len()
        invariant
            1 <= k <= v@.len(),
            r@ =~= v@.subrange(1, k as int),
        decreases v@.len() - k,
    {
        r.push(v[k]);
        k = k + 1;
    }
    proof {
        assert(r@ =~= v@.drop_first());
    }
    r
}

/// Relies on `String: FromIterator<char>`: collecting characters yields the
/// string holding exactly those characters in order.
#[verifier::external_body]
pub fn string_from_chars(v: &Vec<char>) -> (r: String)
    ensures
        r@ == v@,
{
    v.iter().copied().collect()
}

/// The lines of `s`, split at `'\n'`, with a final newline producing no
/// trailing empty line — the splitting behaviour of `str::lines` (any
/// `'\r'` before the newline is left in place and removed later by
/// trimming).
pub open spec fn split_lines_spec(s: Seq<char>) -> Seq<Seq<char>>
    decreases s.len(),
{
    if s.len() == 0 {
        Seq::empty()
    } else if s[0] == '\n' {
        seq![Seq::<char>::empty()] + split_lines_spec(s.drop_first())
    } else {
        let rest = split_lines_spec(s.drop_first());
        if rest.len() == 0 {
            seq![seq![s[0]]]
        } else {
            seq![seq![s[0]] + rest[0]] + rest.drop_first()
        }
    }
}

/// A text without a newline is a single line (or none, when empty).
pub proof fn lemma_split_lines_no_newline(s: Seq<char>)
    requires
        forall|k: int| 0 <= k < s.len() ==> s[k] != '\n',
    ensures
        s.len() == 0 ==> split_lines_spec(s) == Seq::<Seq<char>>::empty(),
        s.len() > 0 ==> split_lines_spec(s) =~~= seq![s],
    decreases s.len(),
{
    if s.len() > 0 {
        lemma_split_lines_no_newline(s.drop_first());
        if s.len() > 1 {
            assert(seq![s[0]] + s.drop_first() =~= s);
        } else {
            assert(seq![s[0]] =~= s);
        }
    }
}

/// Splitting `pre + '\n' + rest` where `pre` has no newline yields `pre`
/// followed by the lines of `rest`.
pub proof fn lemma_split_lines_cat(pre: Seq<char>, rest: Seq<char>)
    requires
        forall|k: int| 0 <= k < pre.len() ==> pre[k] != '\n',
    ensures
        split_lines_spec(pre + seq!['\n'] + rest) =~~= seq![pre] + split_lines_spec(rest),
    decreases pre.len(),
{
    let s = pre + seq!['\n'] + rest;
    if pre.len() == 0 {
        assert(s =~= seq!['\n'] + rest);
        assert(s[0] == '\n');
        assert(s.drop_first() =~= rest);
    } else {
        let pre2 = pre.drop_first();
        lemma_split_lines_cat(pre2, rest);
        assert(s[0] == pre[0]);
        assert(s[0] != '\n');
        assert(s.drop_first() =~= pre2 + seq!['\n'] + rest);
        let inner = split_lines_spec(pre2 + seq!['\n'] + rest);
        assert(inner =~~= seq![pre2] + split_lines_spec(rest));
        assert(inner.len() > 0);
        assert(inner[0] == pre2);
        assert(seq![s[0]] + inner[0] =~= pre);
        assert(inner.drop_first() =~= split_lines_spec(rest));
    }
}

/// The lines of the characters of `v`, as vectors of characters.
#[verifier::loop_isolation(false)]
pub fn split_lines(v: &Vec<char>) -> (r: Vec<Vec<char>>)
    ensures
        r.deep_view() =~~= split_lines_spec(v@),
{
    let mut acc: Vec<Vec<char>> = Vec::new();
    let mut cur: Vec<char> = Vec::new();
    let mut i: usize = 0;
    proof {
        assert(acc.deep_view() =~~= Seq::<Seq<char>>::empty());
        assert(cur@ + v@.skip(0) =~= v@);
        assert(Seq::<Seq<char>>::empty() + split_lines_spec(v@) =~~= split_lines_spec(v@));
    }
    while i < v.len()
        invariant
            0 <= i <= v@.len(),
            forall|k: int| 0 <= k < cur@.len() ==> cur@[k] != '\n',
            split_lines_spec(v@) =~~= acc.deep_view() + split_lines_spec(cur@ + v@.skip(i as int)),
        decreases v@.len() - i,
    {
        let c = v[i];
        if c == '\n' {
            proof {
                assert(cur@ + v@.skip(i as int) =~= cur@ + seq!['\n'] + v@.skip(i as int + 1));
                lemma_split_lines_cat(cur@, v@.skip(i as int + 1));
            }
            let ghost old_acc = acc.deep_view();
            let ghost old_cur = cur@;
            acc.push(cur);
            proof {
                assert(acc.deep_view() =~~= old_acc.push(old_cur));
            }
            cur = Vec::new();
        } else {
            proof {
                assert((cur@ + v@.skip(i as int)).drop_first() == cur@.drop_first() + v@.skip(
                    i as int,
                ) || cur@.len() == 0);
                assert(cur@.push(c) + v@.skip(i as int + 1) =~= cur@ + v@.skip(i as int));
            }
            cur.push(c);
        }
        i = i + 1;
    }
    proof {
        assert(cur@ + v@.skip(i as int) =~= cur@);
        lemma_split_lines_no_newline(cur@);
    }
    if cur.len() > 0 {
        let ghost old_acc = acc.deep_view();
        let ghost old_cur = cur@;
        acc.push(cur);
        proof {
            assert(acc.deep_view() =~~= old_acc.push(old_cur));
        }
    }
    acc
}

/// Strict lexicographic order on character sequences by Unicode codepoint.
pub open spec fn seq_char_lt(a: Seq<char>, b: Seq<char>) -> bool
    decreases a.len(),
{
    if b.len() == 0 {
        false
    } else if a.len() == 0 {
        true
    } else if a[0] < b[0] {
        true
    } else if a[0] == b[0] {
        seq_char_lt(a.drop_first(), b.drop_first())
    } else {
        false
    }
}

/// Non-strict lexicographic order on character sequences.
pub open spec fn seq_char_le(a: Seq<char>, b: Seq<char>) -> bool {
    seq_char_lt(a, b) || a == b
}

/// The lexicographic order is total: of two sequences, one is less than or
/// equal to the other.
pub proof fn lemma_seq_char_lt_total(a: Seq<char>, b: Seq<char>)
    ensures
        seq_char_lt(a, b) || seq_char_lt(b, a) || a == b,
    decreases a.len(),
{
    if a.len() == 0 && b.len() == 0 {
        assert(a =~= b);
    } else if a.len() > 0 && b.len() > 0 {
        if a[0] == b[0] {
            lemma_seq_char_lt_total(a.drop_first(), b.drop_first());
            if a.drop_first() == b.drop_first() {
                assert(a.len() == b.len()) by {
                    assert(a.drop_first().len() == b.drop_first().len());
                }
                assert forall|i: int| 0 <= i < a.len() implies a[i] == b[i] by {
                    if i > 0 {
                        assert(a[i] == a.drop_first()[i - 1]);
                        assert(b[i] == b.drop_first()[i - 1]);
                    }
                }
                assert(a =~= b);
            }
        }
    }
}

/// The lexicographic order is transitive.
pub proof fn lemma_seq_char_lt_trans(a: Seq<char>, b: Seq<char>, c: Seq<char>)
    requires
        seq_char_lt(a, b),
        seq_char_lt(b, c),
    ensures
        seq_char_lt(a, c),
    decreases a.len(),
{
    if a.len() > 0 && b.len() > 0 && c.len() > 0 {
        if a[0] == b[0] && b[0] == c[0] {
            lemma_seq_char_lt_trans(a.drop_first(), b.drop_first(), c.drop_first());
        }
    }
}

/// Whether the characters of `a` come lexicographically before those of
/// `b` or equal them.
#[verifier::loop_isolation(false)]
pub fn str_le(a: &str, b: &str) -> (r: bool)
    ensures
        r == seq_char_le(a@, b@),
{
    let av = chars_of(a);
    let bv = chars_of(b);
    let mut i: usize = 0;
    let n = if av.len() < bv.len() {
        av.len()
    } else {
        bv.len()
    };
    proof {
        assert(av@.skip(0) =~= av@);
        assert(bv@.skip(0) =~= bv@);
    }
    while i < n
        invariant
            0 <= i <= n,
            n == if av@.len() < bv@.len() {
                av@.len()
            } else {
                bv@.len()
            },
            av@.take(i as int) =~= bv@.take(i as int),
            seq_char_lt(a@, b@) == seq_char_lt(av@.skip(i as int), bv@.skip(i as int)),
        decreases n - i,
    {
        let x = av[i];
        let y = bv[i];
        if x < y {
            return true;
        }
        if x != y {
            proof {
                assert(!seq_char_lt(av@.skip(i as int), bv@.skip(i as int)));
                assert(a@[i as int] != b@[i as int]);
            }
            return false;
        }
        proof {
            assert(av@.skip(i as int).drop_first() =~= av@.skip(i as int + 1));
            assert(bv@.skip(i as int).drop_first() =~= bv@.skip(i as int + 1));
            assert(av@.take(i as int).push(x) =~= av@.take(i as int + 1));
            assert(bv@.take(i as int).push(y) =~= bv@.take(i as int + 1));
        }
        i = i + 1;
    }
    if av.len() == bv.len() {
        proof {
            assert(av@.take(i as int) =~= av@);
            assert(bv@.take(i as int) =~= bv@);
            assert(a@ == b@);
        }
        true
    } else if av.len() < bv.len() {
        proof {
            assert(av@.skip(i as int).len() == 0);
            assert(bv@.skip(i as int).len() > 0);
        }
        true
    } else {
        proof {
            assert(bv@.skip(i as int).len() == 0);
            assert(av@.skip(i as int).len() > 0);
            if a@ == b@ {
                assert(a@.len() == b@.len());
            }
        }
        false
    }
}

/// The decimal digit character for `d`.
pub open spec fn digit_char(d: int) -> char {
    if d == 0 {
        '0'
    } else if d == 1 {
        '1'
    } else if d == 2 {
        '2'
    } else if d == 3 {
        '3'
    } else if d == 4 {
        '4'
    } else if d == 5 {
        '5'
    } else if d == 6 {
        '6'
    } else if d == 7 {
        '7'
    } else if d == 8 {
        '8'
    } else {
        '9'
    }
}

/// The decimal rendering of `n`, most significant digit first.
pub open spec fn spec_digits(n: nat) -> Seq<char>
    decreases n,
{
    if n < 10 {
        seq![digit_char(n as int)]
    } else {
        spec_digits(n / 10).push(digit_char((n % 10) as int))
    }
}

/// A decimal rendering holds at least one character.
pub proof fn lemma_spec_digits_len(n: nat)
    ensures
        spec_digits(n).len() >= 1,
    decreases n,
{
    if n >= 10 {
        lemma_spec_digits_len(n / 10);
    }
}

/// Distinct numbers render to distinct digit strings.
pub proof fn lemma_spec_digits_injective(m: nat, n: nat)
    requires
        spec_digits(m) == spec_digits(n),
    ensures
        m == n,
    decreases m + n,
{
    lemma_spec_digits_len(m);
    lemma_spec_digits_len(n);
    if m < 10 && n < 10 {
        assert(spec_digits(m)[0] == digit_char(m as int));
        assert(spec_digits(n)[0] == digit_char(n as int));
    } else if m >= 10 && n >= 10 {
        assert(spec_digits(m).last() == digit_char((m % 10) as int));
        assert(spec_digits(n).last() == digit_char((n % 10) as int));
        assert(spec_digits(m).drop_last() == spec_digits(m / 10));
        assert(spec_digits(n).drop_last() == spec_digits(n / 10));
        lemma_spec_digits_injective(m / 10, n / 10);
    } else if m < 10 {
        lemma_spec_digits_len(n / 10);
        assert(spec_digits(n).len() >= 2);
        assert(false);
    } else {
        lemma_spec_digits_len(m / 10);
        assert(spec_digits(m).len() >= 2);
        assert(false);
    }
}

/// The digit character for `d`.
pub fn digit_of(d: u64) -> (r: char)
    requires
        d < 10,
    ensures
        r == digit_char(d as int),
{
    match d {
        0 => '0',
        1 => '1',
        2 => '2',
        3 => '3',
        4 => '4',
        5 => '5',
        6 => '6',
        7 => '7',
        8 => '8',
        _ => '9',
    }
}

/// Append the decimal rendering of `n` to `v`.
pub fn push_digits(n: u64, v: &mut Vec<char>)
    ensures
        final(v)@ == old(v)@ + spec_digits(n as nat),
    decreases n,
{
    if n < 10 {
        v.push(digit_of(n));
        proof {
            assert(old(v)@.push(digit_char(n as int)) =~= old(v)@ + spec_digits(n as nat));
        }
    } else {
        push_digits(n / 10, v);
        v.push(digit_of(n % 10));
        proof {
            assert((old(v)@ + spec_digits((n / 10) as nat)).push(digit_char((n % 10) as int))
                =~= old(v)@ + spec_digits(n as nat));
        }
    }
}

/// The decimal rendering of `n` as a string.
pub fn u64_to_string(n: u64) -> (r: String)
    ensures
        r@ == spec_digits(n as nat),
{
    let mut v: Vec<char> = Vec::new();
    push_digits(n, &mut v);
    proof {
        assert(v@ =~= spec_digits(n as nat));
    }
    string_from_chars(&v)
}

/// Whether `c` is an ASCII digit or letter.
pub open spec fn is_ascii_alnum_char(c: char) -> bool {
    ('0' <= c && c <= '9') || ('A' <= c && c <= 'Z') || ('a' <= c && c <= 'z')
}

/// Whether `c` is an ASCII digit or upper-case letter.
pub open spec fn is_upper_alnum_char(c: char) -> bool {
    ('0' <= c && c <= '9') || ('A' <= c && c <= 'Z')
}

/// Executable test for [`is_ascii_alnum_char`].
pub fn is_ascii_alnum(c: char) -> (r: bool)
    ensures
        r == is_ascii_alnum_char(c),
{
    ('0' <= c && c <= '9') || ('A' <= c && c <= 'Z') || ('a' <= c && c <= 'z')
}

/// `c` with an ASCII lower-case letter mapped to its upper-case form.
pub open spec fn to_upper_char(c: char) -> char {
    if c == 'a' {
        'A'
    } else if c == 'b' {
        'B'
    } else if c == 'c' {
        'C'
    } else if c == 'd' {
        'D'
    } else if c == 'e' {
        'E'
    } else if c == 'f' {
        'F'
    } else if c == 'g' {
        'G'
    } else if c == 'h' {
        'H'
    } else if c == 'i' {
        'I'
    } else if c == 'j' {
        'J'
    } else if c == 'k' {
        'K'
    } else if c == 'l' {
        'L'
    } else if c == 'm' {
        'M'
    } else if c == 'n' {
        'N'
    } else if c == 'o' {
        'O'
    } else if c == 'p' {
        'P'
    } else if c == 'q' {
        'Q'
    } else if c == 'r' {
        'R'
    } else if c == 's' {
        'S'
    } else if c == 't' {
        'T'
    } else if c == 'u' {
        'U'
    } else if c == 'v' {
        'V'
    } else if c == 'w' {
        'W'
    } else if c == 'x' {
        'X'
    } else if c == 'y' {
        'Y'
    } else if c == 'z' {
        'Z'
    } else {
        c
    }
}

/// Executable form of [`to_upper_char`].
pub fn to_upper(c: char) -> (r: char)
    ensures
        r == to_upper_char(c),
{
    match c {
        'a' => 'A',
        'b' => 'B',
        'c' => 'C',
        'd' => 'D',
        'e' => 'E',
        'f' => 'F',
        'g' => 'G',
        'h' => 'H',
        'i' => 'I',
        'j' => 'J',
        'k' => 'K',
        'l' => 'L',
        'm' => 'M',
        'n' => 'N',
        'o' => 'O',
        'p' => 'P',
        'q' => 'Q',
        'r' => 'R',
        's' => 'S',
        't' => 'T',
        'u' => 'U',
        'v' => 'V',
        'w' => 'W',
        'x' => 'X',
        'y' => 'Y',
        'z' => 'Z',
        _ => c,
    }
}

/// Upper-casing an ASCII alphanumeric character yields an upper-case
/// alphanumeric character.
pub proof fn lemma_to_upper_alnum(c: char)
    requires
        is_ascii_alnum_char(c),
    ensures
        is_upper_alnum_char(to_upper_char(c)),
{
}

/// Whether the characters of `a` equal those of `b`.
#[verifier::loop_isolation(false)]
pub fn str_eq(a: &str, b: &str) -> (r: bool)
    ensures
        r == (a@ == b@),
{
    let av = chars_of(a);
    let bv = chars_of(b);
    if av.len() != bv.len() {
        return false;
    }
    let mut i: usize = 0;
    while i < av.len()
        invariant
            0 <= i <= av@.len(),
            av@.len() == bv@.len(),
            forall|k: int| 0 <= k < i ==> av@[k] == bv@[k],
        decreases av@.len() - i,
    {
        if av[i] != bv[i] {
            return false;
        }
        i = i + 1;
    }
    proof {
        assert(a@ =~= b@);
    }
    true
}

/// Whether `c` is a lower-case hexadecimal digit.
pub open spec fn is_lower_hex_char(c: char) -> bool {
    ('0' <= c && c <= '9') || ('a' <= c && c <= 'f')
}

/// Trimming never lengthens a text.
pub proof fn lemma_trim_start_len(s: Seq<char>)
    ensures
        trim_start_spec(s).len() <= s.len(),
        s.len() > 0 && is_space_char(s[0]) ==> trim_start_spec(s).len() < s.len(),
    decreases s.len(),
{
    if s.len() > 0 && is_space_char(s[0]) {
        lemma_trim_start_len(s.drop_first());
    }
}

/// A text equal to its own trimmed form neither starts nor ends with
/// white space, and is fixed by each one-sided trim alone.
pub proof fn lemma_trim_fixed_ends(t: Seq<char>)
    requires
        trim_spec(t) == t,
        t.len() > 0,
    ensures
        !is_space_char(t[0]),
        !is_space_char(t.last()),
        trim_start_spec(t) == t,
        trim_end_spec(t) == t,
{
    lemma_trim_start_len(t);
    lemma_trim_end_no_tail_space(trim_start_spec(t));
    if is_space_char(t[0]) {
        assert(trim_spec(t).len() < t.len());
    }
    assert(trim_start_spec(t) == t);
    if is_space_char(t.last()) {
        lemma_trim_end_no_tail_space(t);
        assert(trim_end_spec(t).len() > 0 ==> !is_space_char(trim_end_spec(t).last()));
    }
    assert(trim_end_spec(t) == t);
}

/// Whether `s` is free of line breaks.
pub open spec fn no_newline(s: Seq<char>) -> bool {
    forall|k: int| 0 <= k < s.len() ==> s[k] != '\n'
}

/// Trimming introduces no character: a text free of line breaks stays so.
pub proof fn lemma_trim_start_no_newline(s: Seq<char>)
    requires
        no_newline(s),
    ensures
        no_newline(trim_start_spec(s)),
    decreases s.len(),
{
    if s.len() > 0 && is_space_char(s[0]) {
        assert(no_newline(s.drop_first()));
        lemma_trim_start_no_newline(s.drop_first());
    }
}

/// The same for trimming the tail.
pub proof fn lemma_trim_end_no_newline(s: Seq<char>)
    requires
        no_newline(s),
    ensures
        no_newline(trim_end_spec(s)),
    decreases s.len(),
{
    if s.len() > 0 && is_space_char(s.last()) {
        assert(no_newline(s.drop_last()));
        lemma_trim_end_no_newline(s.drop_last());
    }
}

/// And for both together.
pub proof fn lemma_trim_no_newline(s: Seq<char>)
    requires
        no_newline(s),
    ensures
        no_newline(trim_spec(s)),
{
    lemma_trim_start_no_newline(s);
    lemma_trim_end_no_newline(trim_start_spec(s));
}

/// Stripping a leading character introduces none either.
pub proof fn lemma_strip_leading_no_newline(s: Seq<char>, c: char)
    requires
        no_newline(s),
    ensures
        no_newline(strip_leading_spec(s, c)),
    decreases s.len(),
{
    if s.len() > 0 && s[0] == c {
        assert(no_newline(s.drop_first()));
        lemma_strip_leading_no_newline(s.drop_first(), c);
    }
}

/// What is left after trimming the head never starts with white space.
pub proof fn lemma_trim_start_no_head_space(s: Seq<char>)
    ensures
        trim_start_spec(s).len() > 0 ==> !is_space_char(trim_start_spec(s)[0]),
    decreases s.len(),
{
    if s.len() > 0 && is_space_char(s[0]) {
        lemma_trim_start_no_head_space(s.drop_first());
    }
}

/// Trimming the tail leaves the head character in place.
pub proof fn lemma_trim_end_keeps_head(s: Seq<char>)
    ensures
        trim_end_spec(s).len() > 0 ==> trim_end_spec(s)[0] == s[0],
    decreases s.len(),
{
    if s.len() > 0 && is_space_char(s.last()) {
        lemma_trim_end_keeps_head(s.drop_last());
    }
}

/// A trimmed text is fixed by trimming again.
pub proof fn lemma_trim_idempotent(s: Seq<char>)
    ensures
        trim_spec(trim_spec(s)) == trim_spec(s),
{
    let t = trim_spec(s);
    if t.len() > 0 {
        lemma_trim_start_no_head_space(s);
        lemma_trim_end_keeps_head(trim_start_spec(s));
        assert(!is_space_char(t[0]));
        lemma_trim_end_no_tail_space(trim_start_spec(s));
        assert(!is_space_char(t.last()));
        assert(trim_start_spec(t) == t);
        assert(trim_end_spec(t) == t);
    } else {
        assert(trim_start_spec(t) == t);
        assert(trim_end_spec(t) == t);
    }
}

/// Every line of a split text is free of line breaks.
pub proof fn lemma_split_lines_no_newline_lines(s: Seq<char>)
    ensures
        forall|i: int|
            0 <= i < split_lines_spec(s).len() ==> no_newline(#[trigger] split_lines_spec(s)[i]),
    decreases s.len(),
{
    if s.len() > 0 {
        lemma_split_lines_no_newline_lines(s.drop_first());
        let rest = split_lines_spec(s.drop_first());
        if s[0] == '\n' {
            assert forall|i: int| 0 <= i < split_lines_spec(s).len() implies no_newline(
                #[trigger] split_lines_spec(s)[i],
            ) by {
                if i > 0 {
                    assert(split_lines_spec(s)[i] == rest[i - 1]);
                }
            }
        } else {
            if rest.len() == 0 {
                assert(no_newline(seq![s[0]]));
            } else {
                assert(no_newline(seq![s[0]] + rest[0]));
                assert forall|i: int| 0 <= i < split_lines_spec(s).len() implies no_newline(
                    #[trigger] split_lines_spec(s)[i],
                ) by {
                    if i > 0 {
                        assert(split_lines_spec(s)[i] == rest.drop_first()[i - 1]);
                        assert(rest.drop_first()[i - 1] == rest[i]);
                    }
                }
            }
        }
    }
}

/// How many characters of `s` are ASCII alphanumeric.
pub open spec fn count_alnum(s: Seq<char>) -> int
    decreases s.len(),
{
    if s.len() == 0 {
        0
    } else {
        count_alnum(s.drop_last()) + if is_ascii_alnum_char(s.last()) {
            1int
        } else {
            0int
        }
    }
}

/// The alphanumeric count never exceeds the length.
pub proof fn lemma_count_alnum_le_len(s: Seq<char>)
    ensures
        0 <= count_alnum(s) <= s.len(),
    decreases s.len(),
{
    if s.len() > 0 {
        lemma_count_alnum_le_len(s.drop_last());
    }
}

} // verus!
