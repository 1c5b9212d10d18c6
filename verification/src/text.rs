//! Character-level text operations, each specified over `Seq<char>`.
use vstd::prelude::*;

verus! {

/// The Unicode `White_Space` property, the set that `char::is_whitespace`
/// and `str::trim` use.
pub open spec fn is_white_space(c: char) -> bool {
    let u = c as u32;
    ||| 0x9 <= u <= 0xd
    ||| u == 0x20
    ||| u == 0x85
    ||| u == 0xa0
    ||| u == 0x1680
    ||| 0x2000 <= u <= 0x200a
    ||| u == 0x2028
    ||| u == 0x2029
    ||| u == 0x202f
    ||| u == 0x205f
    ||| u == 0x3000
}

/// Decides `is_white_space`.
pub fn char_is_white_space(c: char) -> (r: bool)
    ensures
        r == is_white_space(c),
{
    let u = c as u32;
    (0x9 <= u && u <= 0xd) || u == 0x20 || u == 0x85 || u == 0xa0 || u == 0x1680 || (0x2000 <= u
        && u <= 0x200a) || u == 0x2028 || u == 0x2029 || u == 0x202f || u == 0x205f || u == 0x3000
}

/// Which characters a trim removes.
#[derive(Clone, Copy, Debug, PartialEq, Eq)]
pub enum TrimSet {
    /// Unicode white space, as `str::trim` removes.
    WhiteSpace,
    /// The double quote, as `str::trim_matches('"')` removes.
    Quote,
    /// The slash, as `str::trim_end_matches('/')` removes.
    Slash,
}

pub open spec fn in_trim_set(set: TrimSet, c: char) -> bool {
    match set {
        TrimSet::WhiteSpace => is_white_space(c),
        TrimSet::Quote => c == '"',
        TrimSet::Slash => c == '/',
    }
}

fn char_in_trim_set(set: TrimSet, c: char) -> (r: bool)
    ensures
        r == in_trim_set(set, c),
{
    match set {
        TrimSet::WhiteSpace => char_is_white_space(c),
        TrimSet::Quote => c == '"',
        TrimSet::Slash => c == '/',
    }
}

/// `s` without its leading characters from `set`.
pub open spec fn strip_front(s: Seq<char>, set: TrimSet) -> Seq<char>
    decreases s.len(),
{
    if s.len() > 0 && in_trim_set(set, s[0]) {
        strip_front(s.drop_first(), set)
    } else {
        s
    }
}

/// `s` without its trailing characters from `set`.
pub open spec fn strip_back(s: Seq<char>, set: TrimSet) -> Seq<char>
    decreases s.len(),
{
    if s.len() > 0 && in_trim_set(set, s.last()) {
        strip_back(s.drop_last(), set)
    } else {
        s
    }
}

/// `s` without its leading and trailing characters from `set`.
pub open spec fn trim_both(s: Seq<char>, set: TrimSet) -> Seq<char> {
    strip_back(strip_front(s, set), set)
}

/// The pieces of `s` between the occurrences of `d`, as `str::split(d)`
/// yields them: one more piece than there are occurrences.
pub open spec fn split_on(s: Seq<char>, d: char) -> Seq<Seq<char>>
    decreases s.len(),
{
    if s.len() == 0 {
        seq![Seq::<char>::empty()]
    } else {
        let r = split_on(s.drop_last(), d);
        if s.last() == d {
            r.push(Seq::<char>::empty())
        } else {
            r.update(r.len() - 1, r.last().push(s.last()))
        }
    }
}

/// The texts of a sequence of strings.
pub open spec fn texts(v: Seq<String>) -> Seq<Seq<char>> {
    v.map_values(|s: String| s@)
}

/// `p` is a prefix of `s`.
pub open spec fn has_prefix(s: Seq<char>, p: Seq<char>) -> bool {
    p.len() <= s.len() && s.take(p.len() as int) == p
}

/// What follows the first occurrence of `c` in `s`, if `c` occurs.
pub open spec fn after_first(s: Seq<char>, c: char) -> Option<Seq<char>>
    decreases s.len(),
{
    if s.len() == 0 {
        None
    } else if s[0] == c {
        Some(s.drop_first())
    } else {
        after_first(s.drop_first(), c)
    }
}

/// The index of the last occurrence of `c` in `s`, if `c` occurs.
pub open spec fn last_index_of(s: Seq<char>, c: char) -> Option<int>
    decreases s.len(),
{
    if s.len() == 0 {
        None
    } else if s.last() == c {
        Some(s.len() - 1)
    } else {
        last_index_of(s.drop_last(), c)
    }
}

/// The character of the decimal digit `d` (below ten).
pub open spec fn digit_char(d: nat) -> char {
    (48 + d) as char
}

/// The decimal digits of `n`, most significant first, without leading zeros.
pub open spec fn decimal(n: nat) -> Seq<char>
    decreases n,
{
    if n < 10 {
        seq![digit_char(n)]
    } else {
        decimal(n / 10).push(digit_char(n % 10))
    }
}

/// The decimal text of a signed integer, as `to_string` writes it.
pub open spec fn signed_decimal(n: int) -> Seq<char> {
    if n < 0 {
        seq!['-'] + decimal((-n) as nat)
    } else {
        decimal(n as nat)
    }
}

pub proof fn lemma_split_on_nonempty(s: Seq<char>, d: char)
    ensures
        split_on(s, d).len() >= 1,
    decreases s.len(),
{
    if s.len() > 0 {
        lemma_split_on_nonempty(s.drop_last(), d);
    }
}

pub proof fn lemma_last_index_bounds(s: Seq<char>, c: char)
    ensures
        last_index_of(s, c) matches Some(k) ==> 0 <= k < s.len() && s[k] == c,
        last_index_of(s, c) is None ==> forall|i: int| 0 <= i < s.len() ==> s[i] != c,
    decreases s.len(),
{
    if s.len() > 0 && s.last() != c {
        lemma_last_index_bounds(s.drop_last(), c);
        assert forall|i: int| 0 <= i < s.len() && last_index_of(s, c) is None implies s[i] != c by {
            if i < s.len() - 1 {
                assert(s.drop_last()[i] == s[i]);
            }
        }
    }
}

/// Leading characters from `set` are what `strip_front` removes: before
/// any text, a run of them goes.
pub proof fn lemma_strip_front_run(p: Seq<char>, q: Seq<char>, set: TrimSet)
    requires
        forall|i: int| 0 <= i < p.len() ==> in_trim_set(set, #[trigger] p[i]),
    ensures
        strip_front(p + q, set) == strip_front(q, set),
    decreases p.len(),
{
    if p.len() > 0 {
        assert((p + q)[0] == p[0]);
        assert((p + q).drop_first() =~= p.drop_first() + q);
        assert forall|i: int| 0 <= i < p.drop_first().len() implies in_trim_set(
            set,
            #[trigger] p.drop_first()[i],
        ) by {
            assert(p.drop_first()[i] == p[i + 1]);
        }
        lemma_strip_front_run(p.drop_first(), q, set);
    } else {
        assert(p + q =~= q);
    }
}

/// Trailing characters from `set` are what `strip_back` removes: after any
/// text, a run of them goes.
pub proof fn lemma_strip_back_run(q: Seq<char>, p: Seq<char>, set: TrimSet)
    requires
        forall|i: int| 0 <= i < p.len() ==> in_trim_set(set, #[trigger] p[i]),
    ensures
        strip_back(q + p, set) == strip_back(q, set),
    decreases p.len(),
{
    if p.len() > 0 {
        assert((q + p).last() == p.last());
        assert((q + p).drop_last() =~= q + p.drop_last());
        assert forall|i: int| 0 <= i < p.drop_last().len() implies in_trim_set(
            set,
            #[trigger] p.drop_last()[i],
        ) by {
            assert(p.drop_last()[i] == p[i]);
        }
        lemma_strip_back_run(q, p.drop_last(), set);
    } else {
        assert(q + p =~= q);
    }
}

/// What `strip_front` leaves does not begin with a character of `set`, and
/// what `strip_back` leaves does not end with one.
pub proof fn lemma_strip_ends(s: Seq<char>, set: TrimSet)
    ensures
        strip_front(s, set).len() == 0 || !in_trim_set(set, strip_front(s, set)[0]),
        strip_back(s, set).len() == 0 || !in_trim_set(set, strip_back(s, set).last()),
        strip_back(s, set).len() <= s.len(),
        strip_back(s, set) == s.take(strip_back(s, set).len() as int),
    decreases s.len(),
{
    if s.len() > 0 {
        lemma_strip_ends(s.drop_first(), set);
        lemma_strip_ends(s.drop_last(), set);
        if in_trim_set(set, s.last()) {
            let r = strip_back(s.drop_last(), set);
            assert(s.take(r.len() as int) =~= s.drop_last().take(r.len() as int));
        } else {
            assert(s.take(s.len() as int) =~= s);
        }
    } else {
        assert(s.take(0) =~= s);
    }
}

/// A text without the delimiter is a single piece.
pub proof fn lemma_split_on_absent(a: Seq<char>, d: char)
    requires
        forall|i: int| 0 <= i < a.len() ==> a[i] != d,
    ensures
        split_on(a, d) == seq![a],
    decreases a.len(),
{
    if a.len() > 0 {
        lemma_split_on_absent(a.drop_last(), d);
        assert(a.last() == a[a.len() - 1]);
        assert(a.drop_last().push(a.last()) =~= a);
        assert(seq![a.drop_last()].update(0, a.drop_last().push(a.last())) =~= seq![a]);
    } else {
        assert(a =~= Seq::<char>::empty());
    }
}

/// A text with exactly one delimiter splits into what stands before it and
/// what stands after it.
pub proof fn lemma_split_on_one(a: Seq<char>, b: Seq<char>, d: char)
    requires
        forall|i: int| 0 <= i < a.len() ==> a[i] != d,
        forall|i: int| 0 <= i < b.len() ==> b[i] != d,
    ensures
        split_on(a + seq![d] + b, d) == seq![a, b],
    decreases b.len(),
{
    if b.len() == 0 {
        assert(a + seq![d] + b =~= a.push(d));
        assert((a + seq![d] + b).drop_last() =~= a);
        lemma_split_on_absent(a, d);
        assert(b =~= Seq::<char>::empty());
        assert(seq![a].push(Seq::<char>::empty()) =~= seq![a, b]);
    } else {
        let s = a + seq![d] + b;
        assert forall|i: int| 0 <= i < b.drop_last().len() implies b.drop_last()[i] != d by {
            assert(b.drop_last()[i] == b[i]);
        }
        lemma_split_on_one(a, b.drop_last(), d);
        assert(s.drop_last() =~= a + seq![d] + b.drop_last());
        assert(s.last() == b[b.len() - 1]);
        assert(b.drop_last().push(s.last()) =~= b);
        assert(seq![a, b.drop_last()].update(1, b.drop_last().push(s.last())) =~= seq![a, b]);
    }
}

/// Text without the delimiter, appended, lengthens the last piece.
pub proof fn lemma_split_on_append(s: Seq<char>, t: Seq<char>, d: char)
    requires
        forall|i: int| 0 <= i < t.len() ==> t[i] != d,
    ensures
        split_on(s + t, d).len() == split_on(s, d).len(),
        split_on(s + t, d) == split_on(s, d).update(
            split_on(s, d).len() - 1,
            split_on(s, d).last() + t,
        ),
    decreases t.len(),
{
    lemma_split_on_nonempty(s, d);
    let r = split_on(s, d);
    if t.len() == 0 {
        assert(s + t =~= s);
        assert(r.last() + t =~= r.last());
        assert(r.update(r.len() - 1, r.last() + t) =~= r);
    } else {
        assert forall|i: int| 0 <= i < t.drop_last().len() implies t.drop_last()[i] != d by {
            assert(t.drop_last()[i] == t[i]);
        }
        lemma_split_on_append(s, t.drop_last(), d);
        assert((s + t).drop_last() =~= s + t.drop_last());
        assert((s + t).last() == t[t.len() - 1]);
        let r1 = r.update(r.len() - 1, r.last() + t.drop_last());
        assert((r.last() + t.drop_last()).push(t[t.len() - 1]) =~= r.last() + t);
        assert(r1.update(r1.len() - 1, r1.last().push(t[t.len() - 1])) =~= r.update(
            r.len() - 1,
            r.last() + t,
        ));
    }
}

/// `strip_front` drops a run of leading characters from `set`, all of them.
pub proof fn lemma_strip_front_drops_run(s: Seq<char>, set: TrimSet)
    ensures
        strip_front(s, set).len() <= s.len(),
        strip_front(s, set) == s.skip(s.len() - strip_front(s, set).len()),
        forall|j: int|
            0 <= j < s.len() - strip_front(s, set).len() ==> in_trim_set(set, #[trigger] s[j]),
    decreases s.len(),
{
    if s.len() > 0 && in_trim_set(set, s[0]) {
        let t = s.drop_first();
        lemma_strip_front_drops_run(t, set);
        let r = strip_front(t, set);
        assert(t.skip(t.len() - r.len()) =~= s.skip(s.len() - r.len()));
        assert forall|j: int| 0 <= j < s.len() - r.len() implies in_trim_set(set, #[trigger] s[j]) by {
            if j > 0 {
                assert(s[j] == t[j - 1]);
            }
        }
    } else {
        assert(s.skip(0) =~= s);
    }
}

/// A text in which the delimiter occurs splits into at least two pieces.
pub proof fn lemma_split_on_delim(s: Seq<char>, d: char, j: int)
    requires
        0 <= j < s.len(),
        s[j] == d,
    ensures
        split_on(s, d).len() >= 2,
    decreases s.len(),
{
    lemma_split_on_nonempty(s.drop_last(), d);
    if s.last() != d {
        assert(s.drop_last()[j] == d);
        lemma_split_on_delim(s.drop_last(), d, j);
    }
}

/// Appending text keeps the pieces of `s` before its last one.
pub proof fn lemma_split_on_keeps_pieces(s: Seq<char>, t: Seq<char>, d: char)
    ensures
        split_on(s + t, d).len() >= split_on(s, d).len(),
        forall|k: int|
            0 <= k < split_on(s, d).len() - 1 ==> #[trigger] split_on(s + t, d)[k] == split_on(
                s,
                d,
            )[k],
    decreases t.len(),
{
    lemma_split_on_nonempty(s, d);
    if t.len() == 0 {
        assert(s + t =~= s);
    } else {
        lemma_split_on_keeps_pieces(s, t.drop_last(), d);
        assert((s + t).drop_last() =~= s + t.drop_last());
        lemma_split_on_nonempty(s + t.drop_last(), d);
    }
}

/// A character that does not occur in a text occurs in none of its pieces.
pub proof fn lemma_split_on_without(s: Seq<char>, d: char, c: char)
    requires
        forall|j: int| 0 <= j < s.len() ==> s[j] != c,
    ensures
        forall|k: int, i: int|
            0 <= k < split_on(s, d).len() && 0 <= i < split_on(s, d)[k].len() ==> #[trigger] split_on(
                s,
                d,
            )[k][i] != c,
    decreases s.len(),
{
    if s.len() > 0 {
        assert forall|j: int| 0 <= j < s.drop_last().len() implies s.drop_last()[j] != c by {
            assert(s.drop_last()[j] == s[j]);
        }
        lemma_split_on_without(s.drop_last(), d, c);
        lemma_split_on_nonempty(s.drop_last(), d);
        assert(s.last() == s[s.len() - 1]);
        let r = split_on(s.drop_last(), d);
        if s.last() != d {
            assert forall|k: int, i: int|
                0 <= k < split_on(s, d).len() && 0 <= i < split_on(s, d)[k].len() implies #[trigger] split_on(
                s,
                d,
            )[k][i] != c by {
                if k == r.len() - 1 && i == r.last().len() {
                    assert(split_on(s, d)[k][i] == s.last());
                } else if k == r.len() - 1 {
                    assert(split_on(s, d)[k][i] == r[k][i]);
                }
            }
        }
    }
}

/// A character that does not occur has nothing after it.
pub proof fn lemma_after_first_absent(s: Seq<char>, c: char)
    requires
        forall|i: int| 0 <= i < s.len() ==> s[i] != c,
    ensures
        after_first(s, c) is None,
    decreases s.len(),
{
    if s.len() > 0 {
        assert(s[0] != c);
        assert forall|i: int| 0 <= i < s.drop_first().len() implies s.drop_first()[i] != c by {
            assert(s.drop_first()[i] == s[i + 1]);
        }
        lemma_after_first_absent(s.drop_first(), c);
    }
}

/// What follows an occurrence is a proper suffix of the text.
pub proof fn lemma_after_first_suffix(s: Seq<char>, c: char)
    ensures
        after_first(s, c) matches Some(r) ==> r.len() < s.len() && r == s.skip(s.len() - r.len()),
    decreases s.len(),
{
    if s.len() > 0 {
        lemma_after_first_suffix(s.drop_first(), c);
        if s[0] != c {
            match after_first(s.drop_first(), c) {
                Some(r) => {
                    assert(s.drop_first().skip(s.drop_first().len() - r.len()) =~= s.skip(
                        s.len() - r.len(),
                    ));
                },
                None => {},
            }
        } else {
            assert(s.drop_first() =~= s.skip(1));
        }
    }
}

/// The last occurrence of `c` is at `k` where `s[k]` is `c` and no later
/// character is.
pub proof fn lemma_last_index_at(s: Seq<char>, c: char, k: int)
    requires
        0 <= k < s.len(),
        s[k] == c,
        forall|j: int| k < j < s.len() ==> s[j] != c,
    ensures
        last_index_of(s, c) == Some(k),
    decreases s.len(),
{
    if k < s.len() - 1 {
        assert(s.last() != c);
        assert(s.drop_last()[k] == c);
        assert forall|j: int| k < j < s.drop_last().len() implies s.drop_last()[j] != c by {
            assert(s.drop_last()[j] == s[j]);
        }
        lemma_last_index_at(s.drop_last(), c, k);
    }
}

/// The characters of `s`.
pub fn chars_of(s: &str) -> (r: Vec<char>)
    ensures
        r@ == s@,
{
    let n = s.unicode_len();
    let mut r: Vec<char> = Vec::new();
    let mut i: usize = 0;
    while i < n
        invariant
            n == s@.len(),
            i <= n,
            r@ == s@.take(i as int),
        decreases n - i,
    {
        let c = s.get_char(i);
        r.push(c);
        i = i + 1;
        assert(r@ =~= s@.take(i as int));
    }
    assert(s@.take(n as int) =~= s@);
    r
}

/// The string made of the characters of `v`.
#[verifier::external_body]
pub(crate) fn string_of(v: &Vec<char>) -> (r: String)
    ensures
        r@ == v@,
{
    String::from_iter(v.iter())
}

/// Whether two texts are equal.
pub fn text_eq(a: &str, b: &str) -> (r: bool)
    ensures
        r == (a@ == b@),
{
    let n = a.unicode_len();
    let m = b.unicode_len();
    if n != m {
        return false;
    }
    let mut i: usize = 0;
    while i < n
        invariant
            n == a@.len(),
            m == b@.len(),
            n == m,
            i <= n,
            forall|j: int| 0 <= j < i ==> a@[j] == b@[j],
        decreases n - i,
    {
        if a.get_char(i) != b.get_char(i) {
            return false;
        }
        i = i + 1;
    }
    assert(a@ =~= b@);
    true
}

/// The characters `v[from..to]`.
pub fn sub_chars(v: &Vec<char>, from: usize, to: usize) -> (r: Vec<char>)
    requires
        from <= to <= v.len(),
    ensures
        r@ == v@.subrange(from as int, to as int),
{
    let mut r: Vec<char> = Vec::new();
    let mut i = from;
    while i < to
        invariant
            from <= i <= to <= v.len(),
            r@ == v@.subrange(from as int, i as int),
        decreases to - i,
    {
        r.push(v[i]);
        i = i + 1;
        assert(r@ =~= v@.subrange(from as int, i as int));
    }
    r
}

/// The index of the first character of `v` not in `set` (or `v.len()`).
fn front_index(v: &Vec<char>, set: TrimSet) -> (i: usize)
    ensures
        i <= v.len(),
        strip_front(v@, set) == v@.skip(i as int),
{
    let n = v.len();
    let mut i: usize = 0;
    assert(v@.skip(0) =~= v@);
    while i < n && char_in_trim_set(set, v[i])
        invariant
            n == v.len(),
            i <= n,
            strip_front(v@, set) == strip_front(v@.skip(i as int), set),
        decreases n - i,
    {
        assert(v@.skip(i as int).drop_first() =~= v@.skip(i + 1));
        i = i + 1;
    }
    i
}

/// `v` without its leading characters from `set`.
pub fn strip_front_chars(v: &Vec<char>, set: TrimSet) -> (r: Vec<char>)
    ensures
        r@ == strip_front(v@, set),
{
    let i = front_index(v, set);
    let r = sub_chars(v, i, v.len());
    assert(r@ =~= v@.skip(i as int));
    r
}

/// `v` without its trailing characters from `set`.
pub fn strip_back_chars(v: &Vec<char>, set: TrimSet) -> (r: Vec<char>)
    ensures
        r@ == strip_back(v@, set),
{
    let mut j: usize = v.len();
    assert(v@.take(j as int) =~= v@);
    while j > 0 && char_in_trim_set(set, v[j - 1])
        invariant
            j <= v.len(),
            strip_back(v@, set) == strip_back(v@.take(j as int), set),
        decreases j,
    {
        assert(v@.take(j as int).drop_last() =~= v@.take(j - 1));
        j = j - 1;
    }
    let r = sub_chars(v, 0, j);
    assert(r@ =~= v@.take(j as int));
    r
}

/// `v` without its leading and trailing characters from `set`.
pub fn trim_chars(v: &Vec<char>, set: TrimSet) -> (r: Vec<char>)
    ensures
        r@ == trim_both(v@, set),
{
    let n = v.len();
    let i = front_index(v, set);
    let ghost front = v@.skip(i as int);
    let mut j: usize = n;
    assert(v@.subrange(i as int, n as int) =~= front);
    while j > i && char_in_trim_set(set, v[j - 1])
        invariant
            n == v.len(),
            i <= j <= n,
            front == v@.skip(i as int),
            strip_back(front, set) == strip_back(v@.subrange(i as int, j as int), set),
        decreases j,
    {
        assert(v@.subrange(i as int, j as int).drop_last() =~= v@.subrange(i as int, j - 1));
        j = j - 1;
    }
    sub_chars(v, i, j)
}

/// Whether `v` begins with the text `p`.
pub fn starts_with_text(v: &Vec<char>, p: &str) -> (r: bool)
    ensures
        r == has_prefix(v@, p@),
{
    let m = p.unicode_len();
    if m > v.len() {
        return false;
    }
    let mut i: usize = 0;
    while i < m
        invariant
            m == p@.len(),
            m <= v.len(),
            i <= m,
            forall|j: int| 0 <= j < i ==> v@[j] == p@[j],
        decreases m - i,
    {
        if v[i] != p.get_char(i) {
            assert(v@.take(m as int)[i as int] != p@[i as int]);
            return false;
        }
        i = i + 1;
    }
    assert(v@.take(m as int) =~= p@);
    true
}

/// Whether the characters of `v` equal the text `p`.
pub fn chars_eq_text(v: &Vec<char>, p: &str) -> (r: bool)
    ensures
        r == (v@ == p@),
{
    if v.len() != p.unicode_len() {
        return false;
    }
    let r = starts_with_text(v, p);
    assert(v@.take(v@.len() as int) =~= v@);
    r
}

/// The pieces of `v` between the occurrences of `d`.
pub fn split_chars(v: &Vec<char>, d: char) -> (r: Vec<Vec<char>>)
    ensures
        r@.len() == split_on(v@, d).len(),
        forall|k: int| 0 <= k < r@.len() ==> #[trigger] r@[k]@ == split_on(v@, d)[k],
{
    let n = v.len();
    let mut done: Vec<Vec<char>> = Vec::new();
    let mut cur: Vec<char> = Vec::new();
    let mut i: usize = 0;
    while i < n
        invariant
            n == v.len(),
            i <= n,
            split_on(v@.take(i as int), d).len() == done@.len() + 1,
            forall|k: int|
                0 <= k < done@.len() ==> #[trigger] done@[k]@ == split_on(v@.take(i as int), d)[k],
            cur@ == split_on(v@.take(i as int), d).last(),
        decreases n - i,
    {
        let c = v[i];
        proof {
            assert(v@.take(i + 1).drop_last() =~= v@.take(i as int));
            lemma_split_on_nonempty(v@.take(i as int), d);
        }
        if c == d {
            let finished = cur;
            done.push(finished);
            cur = Vec::new();
        } else {
            cur.push(c);
        }
        i = i + 1;
    }
    assert(v@.take(n as int) =~= v@);
    done.push(cur);
    done
}

/// What follows the first occurrence of `c` in `v`, if `c` occurs.
pub fn after_first_char(v: &Vec<char>, c: char) -> (r: Option<Vec<char>>)
    ensures
        match (r, after_first(v@, c)) {
            (Some(x), Some(y)) => x@ == y,
            (None, None) => true,
            _ => false,
        },
{
    let n = v.len();
    let mut i: usize = 0;
    assert(v@.skip(0) =~= v@);
    while i < n
        invariant
            n == v.len(),
            i <= n,
            after_first(v@, c) == after_first(v@.skip(i as int), c),
        decreases n - i,
    {
        assert(v@.skip(i as int).drop_first() =~= v@.skip(i + 1));
        if v[i] == c {
            return Some(sub_chars(v, i + 1, n));
        }
        i = i + 1;
    }
    None
}

/// The index of the last occurrence of `c` in `v`, if `c` occurs.
pub fn last_index_of_char(v: &Vec<char>, c: char) -> (r: Option<usize>)
    ensures
        match r {
            Some(k) => last_index_of(v@, c) == Some(k as int),
            None => last_index_of(v@, c) is None,
        },
{
    let mut j: usize = v.len();
    assert(v@.take(j as int) =~= v@);
    while j > 0
        invariant
            j <= v.len(),
            last_index_of(v@, c) == last_index_of(v@.take(j as int), c),
        decreases j,
    {
        assert(v@.take(j as int).drop_last() =~= v@.take(j - 1));
        if v[j - 1] == c {
            return Some(j - 1);
        }
        j = j - 1;
    }
    None
}

/// Appends the decimal digits of `n` to `out`.
pub fn push_decimal(out: &mut Vec<char>, n: u128)
    ensures
        final(out)@ == old(out)@ + decimal(n as nat),
    decreases n,
{
    if n >= 10 {
        push_decimal(out, n / 10);
    }
    let d = (n % 10) as u8;
    let ch = (48u8 + d) as char;
    out.push(ch);
    proof {
        if n >= 10 {
            assert(old(out)@ + decimal(n as nat) =~= old(out)@ + decimal((n / 10) as nat) + seq![
                digit_char((n % 10) as nat),
            ]);
        } else {
            assert(old(out)@ + decimal(n as nat) =~= old(out)@ + seq![digit_char(n as nat)]);
        }
    }
}

/// Appends the decimal text of the signed integer `n` to `out`.
pub fn push_signed_decimal(out: &mut Vec<char>, n: i64)
    ensures
        final(out)@ == old(out)@ + signed_decimal(n as int),
{
    if n < 0 {
        out.push('-');
        let m: u128 = ((-(n + 1)) as u128) + 1;
        push_decimal(out, m);
        assert(final(out)@ =~= old(out)@ + signed_decimal(n as int));
    } else {
        push_decimal(out, n as u128);
    }
}

} // verus!
