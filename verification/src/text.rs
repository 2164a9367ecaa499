use vstd::prelude::*;

verus! {

/// The Unicode `White_Space` property, which `char::is_whitespace` tests.
pub open spec fn is_space(c: char) -> bool {
    let u = c as u32;
    ||| 0x9 <= u && u <= 0xD
    ||| u == 0x20
    ||| u == 0x85
    ||| u == 0xA0
    ||| u == 0x1680
    ||| 0x2000 <= u && u <= 0x200A
    ||| u == 0x2028
    ||| u == 0x2029
    ||| u == 0x202F
    ||| u == 0x205F
    ||| u == 0x3000
}

/// True when every character of `s` is white space (so trimming leaves nothing).
pub open spec fn all_space(s: Seq<char>) -> bool {
    forall|i: int| 0 <= i < s.len() ==> is_space(#[trigger] s[i])
}

/// The views of a sequence of character vectors.
pub open spec fn views(v: Seq<Vec<char>>) -> Seq<Seq<char>> {
    v.map_values(|p: Vec<char>| p@)
}

/// The pieces of `s` between occurrences of `sep`, the piece under way being `cur`:
/// `n` separators give `n + 1` pieces, empty ones included.
pub open spec fn split_from(cur: Seq<char>, s: Seq<char>, sep: char) -> Seq<Seq<char>>
    decreases s.len(),
{
    if s.len() == 0 {
        seq![cur]
    } else if s[0] == sep {
        seq![cur] + split_from(Seq::empty(), s.drop_first(), sep)
    } else {
        split_from(cur.push(s[0]), s.drop_first(), sep)
    }
}

/// `s` split at every `sep`.
pub open spec fn split_on(s: Seq<char>, sep: char) -> Seq<Seq<char>> {
    split_from(Seq::empty(), s, sep)
}

/// The word under way, as a list of at most one word.
pub open spec fn flush(cur: Seq<char>) -> Seq<Seq<char>> {
    if cur.len() == 0 {
        Seq::empty()
    } else {
        seq![cur]
    }
}

/// The maximal runs of non-space characters of `s`, the run under way being `cur`.
pub open spec fn words_from(cur: Seq<char>, s: Seq<char>) -> Seq<Seq<char>>
    decreases s.len(),
{
    if s.len() == 0 {
        flush(cur)
    } else if is_space(s[0]) {
        flush(cur) + words_from(Seq::empty(), s.drop_first())
    } else {
        words_from(cur.push(s[0]), s.drop_first())
    }
}

/// The words of `s`: its maximal runs of non-space characters, in order.
pub open spec fn words(s: Seq<char>) -> Seq<Seq<char>> {
    words_from(Seq::empty(), s)
}

/// `s` with every character that satisfies `drop` taken out.
pub open spec fn remove_where(s: Seq<char>, drop: spec_fn(char) -> bool) -> Seq<char>
    decreases s.len(),
{
    if s.len() == 0 {
        s
    } else {
        remove_where(s.drop_last(), drop) + (if drop(s.last()) {
            Seq::empty()
        } else {
            seq![s.last()]
        })
    }
}

/// `pat` occurs in `s` starting at `i`.
pub open spec fn occurs_at(s: Seq<char>, pat: Seq<char>, i: int) -> bool {
    0 <= i && i + pat.len() <= s.len() && s.subrange(i, i + pat.len()) == pat
}

/// `pat` occurs somewhere in `s`.
pub open spec fn has_pattern(s: Seq<char>, pat: Seq<char>) -> bool {
    exists|i: int| occurs_at(s, pat, i)
}

/// The first position at or after `i` where `c` stands in `s`.
pub open spec fn find_from(s: Seq<char>, c: char, i: int) -> Option<int>
    decreases s.len() - i,
{
    if i < 0 || i >= s.len() {
        None
    } else if s[i] == c {
        Some(i)
    } else {
        find_from(s, c, i + 1)
    }
}

/// The first position of `c` in `s`.
pub open spec fn find(s: Seq<char>, c: char) -> Option<int> {
    find_from(s, c, 0)
}

/// The words of `ws` joined with single spaces.
pub open spec fn join_spaced(ws: Seq<Seq<char>>) -> Seq<char>
    decreases ws.len(),
{
    if ws.len() == 0 {
        Seq::empty()
    } else if ws.len() == 1 {
        ws[0]
    } else {
        join_spaced(ws.drop_last()) + seq![' '] + ws.last()
    }
}

/// True when `c` is an ASCII decimal digit.
pub open spec fn is_digit(c: char) -> bool {
    '0' as u32 <= c as u32 && c as u32 <= '9' as u32
}

/// The number that the decimal digits `s` write.
pub open spec fn digits_value(s: Seq<char>) -> int
    decreases s.len(),
{
    if s.len() == 0 {
        0
    } else {
        digits_value(s.drop_last()) * 10 + (s.last() as u32 - '0' as u32)
    }
}

/// The digits part of an unsigned number: without one leading `+`.
pub open spec fn unsigned_digits(s: Seq<char>) -> Seq<char> {
    if s.len() > 0 && s[0] == '+' {
        s.drop_first()
    } else {
        s
    }
}

/// Every character is a decimal digit.
pub open spec fn all_digits(d: Seq<char>) -> bool {
    forall|i: int| 0 <= i < d.len() ==> is_digit(#[trigger] d[i])
}

/// What `str::parse::<u32>` gives: an optional `+`, then at least one decimal digit,
/// with a value that fits in 32 bits.
pub open spec fn parse_u32(s: Seq<char>) -> Option<u32> {
    let d = unsigned_digits(s);
    if d.len() == 0 || !all_digits(d) || digits_value(d) > u32::MAX {
        None
    } else {
        Some(digits_value(d) as u32)
    }
}

/// Lowering the ASCII letters of `c` gives `d`.
pub open spec fn lowers_to(c: char, d: char) -> bool {
    c == d || ('A' as u32 <= c as u32 && c as u32 <= 'Z' as u32 && c as u32 + 32 == d as u32)
}

/// `s` equals the lower-case ASCII word `w` up to the case of ASCII letters.
pub open spec fn ascii_ci_eq(s: Seq<char>, w: Seq<char>) -> bool {
    s.len() == w.len() && forall|i: int| 0 <= i < s.len() ==> lowers_to(#[trigger] s[i], w[i])
}

/// Tests a character for the Unicode `White_Space` property.
pub fn char_is_space(c: char) -> (b: bool)
    ensures
        b == is_space(c),
{
    let u = c as u32;
    (0x9 <= u && u <= 0xD) || u == 0x20 || u == 0x85 || u == 0xA0 || u == 0x1680 || (0x2000 <= u
        && u <= 0x200A) || u == 0x2028 || u == 0x2029 || u == 0x202F || u == 0x205F || u == 0x3000
}

/// The characters of a string slice.
pub fn to_chars(s: &str) -> (v: Vec<char>)
    ensures
        v@ == s@,
{
    let n = s.unicode_len();
    let mut v: Vec<char> = Vec::new();
    let mut i: usize = 0;
    while i < n
        invariant
            n == s@.len(),
            i <= n,
            v@ == s@.take(i as int),
        decreases n - i,
    {
        v.push(s.get_char(i));
        i = i + 1;
        assert(v@ =~= s@.take(i as int));
    }
    assert(s@.take(n as int) =~= s@);
    v
}

/// Tells whether every character is white space.
pub fn is_all_space(s: &Vec<char>) -> (b: bool)
    ensures
        b == all_space(s@),
{
    let mut i: usize = 0;
    while i < s.len()
        invariant
            i <= s.len(),
            forall|j: int| 0 <= j < i ==> is_space(#[trigger] s@[j]),
        decreases s.len() - i,
    {
        if !char_is_space(s[i]) {
            return false;
        }
        i = i + 1;
    }
    true
}

/// Splits at every occurrence of `sep`, as `str::split` with a character does.
pub fn split_chars(s: &Vec<char>, sep: char) -> (pieces: Vec<Vec<char>>)
    ensures
        views(pieces@) == split_on(s@, sep),
{
    let mut pieces: Vec<Vec<char>> = Vec::new();
    let mut cur: Vec<char> = Vec::new();
    let mut i: usize = 0;
    assert(s@.skip(0) =~= s@);
    assert(views(pieces@) + split_on(s@, sep) =~= split_on(s@, sep));
    while i < s.len()
        invariant
            i <= s.len(),
            views(pieces@) + split_from(cur@, s@.skip(i as int), sep) == split_on(s@, sep),
        decreases s.len() - i,
    {
        assert(s@.skip(i as int).drop_first() =~= s@.skip(i + 1));
        assert(s@.skip(i as int)[0] == s@[i as int]);
        let ghost old_pieces = views(pieces@);
        let ghost old_cur = cur@;
        if s[i] == sep {
            pieces.push(cur);
            cur = Vec::new();
            assert(views(pieces@) =~= old_pieces + seq![old_cur]);
            assert(old_pieces + (seq![old_cur] + split_from(Seq::empty(), s@.skip(i + 1), sep))
                =~= views(pieces@) + split_from(cur@, s@.skip(i + 1), sep));
        } else {
            cur.push(s[i]);
        }
        i = i + 1;
    }
    let ghost old_pieces = views(pieces@);
    let ghost old_cur = cur@;
    pieces.push(cur);
    assert(views(pieces@) =~= old_pieces + seq![old_cur]);
    pieces
}

/// Splits into the maximal runs of non-space characters, as `str::split_whitespace` does.
pub fn split_words(s: &Vec<char>) -> (ws: Vec<Vec<char>>)
    ensures
        views(ws@) == words(s@),
{
    let mut ws: Vec<Vec<char>> = Vec::new();
    let mut cur: Vec<char> = Vec::new();
    let mut i: usize = 0;
    assert(s@.skip(0) =~= s@);
    assert(views(ws@) + words(s@) =~= words(s@));
    while i < s.len()
        invariant
            i <= s.len(),
            views(ws@) + words_from(cur@, s@.skip(i as int)) == words(s@),
        decreases s.len() - i,
    {
        assert(s@.skip(i as int).drop_first() =~= s@.skip(i + 1));
        assert(s@.skip(i as int)[0] == s@[i as int]);
        let ghost old_ws = views(ws@);
        let ghost old_cur = cur@;
        if char_is_space(s[i]) {
            if cur.len() > 0 {
                ws.push(cur);
                cur = Vec::new();
                assert(views(ws@) =~= old_ws + flush(old_cur));
            } else {
                assert(cur@ =~= Seq::<char>::empty());
                assert(views(ws@) =~= old_ws + flush(old_cur));
            }
            assert(old_ws + (flush(old_cur) + words_from(Seq::empty(), s@.skip(i + 1)))
                =~= views(ws@) + words_from(cur@, s@.skip(i + 1)));
        } else {
            cur.push(s[i]);
        }
        i = i + 1;
    }
    let ghost old_ws = views(ws@);
    let ghost old_cur = cur@;
    if cur.len() > 0 {
        ws.push(cur);
    }
    assert(views(ws@) =~= old_ws + flush(old_cur));
    ws
}

/// Tells whether `pat` occurs in `s`, as `str::contains` does.
pub fn contains_pattern(s: &Vec<char>, pat: &Vec<char>) -> (b: bool)
    ensures
        b == has_pattern(s@, pat@),
{
    if pat.len() > s.len() {
        assert forall|i: int| !occurs_at(s@, pat@, i) by {}
        return false;
    }
    let last = s.len() - pat.len();
    let mut i: usize = 0;
    while i <= last
        invariant
            last == s.len() - pat.len(),
            pat.len() <= s.len(),
            i <= last + 1,
            forall|k: int| 0 <= k < i ==> !occurs_at(s@, pat@, k),
        decreases last + 1 - i,
    {
        let mut j: usize = 0;
        let mut same = true;
        while j < pat.len()
            invariant
                i <= last,
                last == s.len() - pat.len(),
                j <= pat.len(),
                same == (forall|m: int| 0 <= m < j ==> s@[i + m] == pat@[m]),
            decreases pat.len() - j,
        {
            if s[i + j] != pat[j] {
                same = false;
            }
            j = j + 1;
        }
        if same {
            assert(s@.subrange(i as int, i + pat.len()) =~= pat@);
            assert(occurs_at(s@, pat@, i as int));
            return true;
        }
        assert(!occurs_at(s@, pat@, i as int)) by {
            if occurs_at(s@, pat@, i as int) {
                let m = choose|m: int| 0 <= m < pat.len() && s@[i + m] != pat@[m];
                assert(s@.subrange(i as int, i + pat.len())[m] == s@[i + m]);
            }
        }
        i = i + 1;
    }
    assert forall|k: int| !occurs_at(s@, pat@, k) by {
        if occurs_at(s@, pat@, k) {
            assert(0 <= k < i);
        }
    }
    false
}

/// The first position of `c`, as `str::find` with a character gives it (counted in characters).
pub fn find_char(s: &Vec<char>, c: char) -> (r: Option<usize>)
    ensures
        match r {
            Some(i) => i < s@.len() && find(s@, c) == Some(i as int),
            None => find(s@, c) is None,
        },
{
    let mut i: usize = 0;
    while i < s.len()
        invariant
            i <= s.len(),
            find(s@, c) == find_from(s@, c, i as int),
        decreases s.len() - i,
    {
        if s[i] == c {
            return Some(i);
        }
        i = i + 1;
    }
    None
}

/// The characters of `s` that `keep` accepts, given as the three characters to drop.
pub open spec fn is_one_of(c: char, a: char, b: char, d: char) -> bool {
    c == a || c == b || c == d
}

/// `s` without any of the characters `a`, `b` and `d`.
pub open spec fn strip_three(s: Seq<char>, a: char, b: char, d: char) -> Seq<char> {
    remove_where(s, |x: char| is_one_of(x, a, b, d))
}

/// `s` without any `c`.
pub open spec fn strip_char(s: Seq<char>, c: char) -> Seq<char> {
    strip_three(s, c, c, c)
}

/// Taking characters out of two pieces one after the other is taking them out of each.
pub proof fn lemma_strip_three_concat(x: Seq<char>, y: Seq<char>, a: char, b: char, d: char)
    ensures
        strip_three(x + y, a, b, d) == strip_three(x, a, b, d) + strip_three(y, a, b, d),
    decreases y.len(),
{
    if y.len() == 0 {
        assert(x + y =~= x);
        assert(strip_three(x, a, b, d) + strip_three(y, a, b, d) =~= strip_three(x, a, b, d));
    } else {
        assert((x + y).drop_last() =~= x + y.drop_last());
        assert((x + y).last() == y.last());
        lemma_strip_three_concat(x, y.drop_last(), a, b, d);
        assert(strip_three(x + y, a, b, d) =~= strip_three(x, a, b, d) + strip_three(y, a, b, d));
    }
}

/// Taking characters out leaves nothing of a piece made only of them.
pub proof fn lemma_strip_three_all(x: Seq<char>, a: char, b: char, d: char)
    requires
        forall|i: int| 0 <= i < x.len() ==> is_one_of(#[trigger] x[i], a, b, d),
    ensures
        strip_three(x, a, b, d) == Seq::<char>::empty(),
    decreases x.len(),
{
    if x.len() > 0 {
        assert(is_one_of(x[x.len() - 1], a, b, d));
        lemma_strip_three_all(x.drop_last(), a, b, d);
        assert(strip_three(x, a, b, d) =~= Seq::<char>::empty());
    }
}

/// Taking characters out leaves a piece that holds none of them as it was.
pub proof fn lemma_strip_three_none(x: Seq<char>, a: char, b: char, d: char)
    requires
        forall|i: int| 0 <= i < x.len() ==> !is_one_of(#[trigger] x[i], a, b, d),
    ensures
        strip_three(x, a, b, d) == x,
    decreases x.len(),
{
    if x.len() > 0 {
        assert(!is_one_of(x[x.len() - 1], a, b, d));
        lemma_strip_three_none(x.drop_last(), a, b, d);
        assert(strip_three(x, a, b, d) =~= x);
    }
}

/// `s` without any `c`, as `str::replace` with an empty replacement leaves it.
pub fn remove_char(s: &Vec<char>, c: char) -> (r: Vec<char>)
    ensures
        r@ == strip_char(s@, c),
{
    remove_chars(s, c, c, c)
}

/// `s` without any of the characters `a`, `b` and `d`, as repeated `str::replace` with an
/// empty replacement leaves it.
pub fn remove_chars(s: &Vec<char>, a: char, b: char, d: char) -> (r: Vec<char>)
    ensures
        r@ == strip_three(s@, a, b, d),
{
    let ghost drop = |x: char| is_one_of(x, a, b, d);
    let mut r: Vec<char> = Vec::new();
    let mut i: usize = 0;
    while i < s.len()
        invariant
            i <= s.len(),
            drop == (|x: char| is_one_of(x, a, b, d)),
            r@ == remove_where(s@.take(i as int), drop),
        decreases s.len() - i,
    {
        assert(s@.take(i + 1).drop_last() =~= s@.take(i as int));
        let c = s[i];
        if !(c == a || c == b || c == d) {
            r.push(c);
        }
        i = i + 1;
        assert(r@ =~= remove_where(s@.take(i as int), drop));
    }
    assert(s@.take(s.len() as int) =~= s@);
    r
}

/// Tells whether two character vectors hold the same characters.
pub fn same_chars(a: &Vec<char>, b: &Vec<char>) -> (r: bool)
    ensures
        r == (a@ == b@),
{
    if a.len() != b.len() {
        return false;
    }
    let mut i: usize = 0;
    while i < a.len()
        invariant
            a.len() == b.len(),
            i <= a.len(),
            forall|j: int| 0 <= j < i ==> a@[j] == b@[j],
        decreases a.len() - i,
    {
        if a[i] != b[i] {
            return false;
        }
        i = i + 1;
    }
    assert(a@ =~= b@);
    true
}

/// Joins words with single spaces, as `[&str]::join(" ")` does.
pub fn join_with_spaces(ws: &Vec<Vec<char>>) -> (r: Vec<char>)
    ensures
        r@ == join_spaced(views(ws@)),
{
    let mut r: Vec<char> = Vec::new();
    let mut i: usize = 0;
    while i < ws.len()
        invariant
            i <= ws.len(),
            r@ == join_spaced(views(ws@).take(i as int)),
        decreases ws.len() - i,
    {
        let ghost before = r@;
        assert(views(ws@).take(i + 1).drop_last() =~= views(ws@).take(i as int));
        if i > 0 {
            r.push(' ');
        }
        let w = &ws[i];
        let mut j: usize = 0;
        let ghost mid = r@;
        while j < w.len()
            invariant
                j <= w.len(),
                r@ == mid + w@.take(j as int),
            decreases w.len() - j,
        {
            r.push(w[j]);
            j = j + 1;
            assert(r@ =~= mid + w@.take(j as int));
        }
        assert(w@.take(w.len() as int) =~= w@);
        i = i + 1;
        if i == 1 {
            assert(views(ws@).take(1) =~= seq![w@]);
            assert(r@ =~= w@);
        } else {
            assert(r@ =~= before + seq![' '] + w@);
        }
    }
    assert(views(ws@).take(ws.len() as int) =~= views(ws@));
    r
}

proof fn lemma_digits_value_prefix_monotone(d: Seq<char>, i: int)
    requires
        0 <= i <= d.len(),
        forall|k: int| 0 <= k < d.len() ==> is_digit(#[trigger] d[k]),
    ensures
        digits_value(d.take(i)) <= digits_value(d),
    decreases d.len() - i,
{
    if i < d.len() {
        lemma_digits_value_prefix_monotone(d, i + 1);
        assert(d.take(i + 1).drop_last() =~= d.take(i));
        assert(d.take(i + 1).last() == d[i]);
        lemma_digits_value_nonneg(d.take(i));
    } else {
        assert(d.take(i) =~= d);
    }
}

proof fn lemma_digits_value_nonneg(d: Seq<char>)
    requires
        forall|k: int| 0 <= k < d.len() ==> is_digit(#[trigger] d[k]),
    ensures
        digits_value(d) >= 0,
    decreases d.len(),
{
    if d.len() > 0 {
        lemma_digits_value_nonneg(d.drop_last());
    }
}

/// Parses a decimal `u32` as `str::parse::<u32>` does: `None` where that gives an error.
pub fn parse_decimal_u32(s: &Vec<char>) -> (r: Option<u32>)
    ensures
        r == parse_u32(s@),
{
    let start: usize = if s.len() > 0 && s[0] == '+' {
        1
    } else {
        0
    };
    let ghost d = unsigned_digits(s@);
    assert(d =~= s@.skip(start as int));
    if start >= s.len() {
        return None;
    }
    let mut acc: u64 = 0;
    let mut i: usize = start;
    while i < s.len()
        invariant
            start <= i <= s.len(),
            d == s@.skip(start as int),
            d == unsigned_digits(s@),
            forall|k: int| 0 <= k < i - start ==> is_digit(#[trigger] d[k]),
            acc == digits_value(d.take(i - start)),
            acc <= u32::MAX,
        decreases s.len() - i,
    {
        let c = s[i];
        assert(d[i - start] == c);
        if !('0' as u32 <= c as u32 && c as u32 <= '9' as u32) {
            assert(!is_digit(d[i - start]));
            assert(!all_digits(d));
            return None;
        }
        let digit = (c as u32 - '0' as u32) as u64;
        assert(d.take(i - start + 1).drop_last() =~= d.take(i - start));
        assert(d.take(i - start + 1).last() == c);
        acc = acc * 10 + digit;
        i = i + 1;
        assert(acc == digits_value(d.take(i - start)));
        assert(forall|k: int| 0 <= k < i - start ==> is_digit(#[trigger] d[k]));
        if acc > u32::MAX as u64 {
            proof {
                if all_digits(d) {
                    lemma_digits_value_prefix_monotone(d, i - start);
                    assert(digits_value(d) > u32::MAX);
                }
            }
            return None;
        }
    }
    assert(d.take(i - start) =~= d);
    Some(acc as u32)
}

/// Appends a character, as `String::push` does.
#[verifier::external_body]
fn push_char(s: &mut String, c: char)
    ensures
        final(s)@ == old(s)@.push(c),
{
    s.push(c);
}

/// A string that holds the given characters.
pub fn string_from_chars(v: &Vec<char>) -> (s: String)
    ensures
        s@ == v@,
{
    let mut s = String::new();
    let mut i: usize = 0;
    while i < v.len()
        invariant
            i <= v.len(),
            s@ == v@.take(i as int),
        decreases v.len() - i,
    {
        push_char(&mut s, v[i]);
        i = i + 1;
        assert(s@ =~= v@.take(i as int));
    }
    assert(v@.take(v.len() as int) =~= v@);
    s
}

/// Every character is a lower-case ASCII letter or a hyphen.
pub open spec fn lower_word(w: Seq<char>) -> bool {
    forall|i: int|
        0 <= i < w.len() ==> ('a' as u32 <= (#[trigger] w[i]) as u32 && w[i] as u32 <= 'z' as u32)
            || w[i] == '-'
}

/// Compares with a lower-case ASCII word without regard to the case of ASCII letters.
pub fn equals_ignoring_ascii_case(s: &Vec<char>, w: &Vec<char>) -> (r: bool)
    requires
        lower_word(w@),
    ensures
        r == ascii_ci_eq(s@, w@),
{
    if s.len() != w.len() {
        return false;
    }
    let mut i: usize = 0;
    while i < s.len()
        invariant
            s.len() == w.len(),
            i <= s.len(),
            lower_word(w@),
            forall|j: int| 0 <= j < i ==> lowers_to(#[trigger] s@[j], w@[j]),
        decreases s.len() - i,
    {
        let c = s[i];
        let d = w[i];
        let is_upper = 'A' as u32 <= c as u32 && c as u32 <= 'Z' as u32;
        let same = c == d || (is_upper && c as u32 + 32 == d as u32);
        if !same {
            return false;
        }
        i = i + 1;
    }
    true
}

} // verus!
