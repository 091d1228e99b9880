//! Character sequences: the small vocabulary in which the rest of the library
//! states what it does with text, and the functions that compute it.

use vstd::prelude::*;

verus! {

/// `String::push` appends one character.
pub assume_specification[ String::push ](s: &mut String, c: char)
    ensures
        final(s)@ == old(s)@.push(c),
;

/// `String::push_str` appends a whole string slice.
pub assume_specification[ String::push_str ](s: &mut String, other: &str)
    ensures
        final(s)@ == old(s)@ + other@,
;

/// The characters of a string.
pub fn chars_of(s: &str) -> (r: Vec<char>)
    ensures
        r@ == s@,
{
    let mut r: Vec<char> = Vec::new();
    for c in it: s.chars()
        invariant
            it.seq() == s@,
            r@ == s@.take(it.index()),
    {
        r.push(c);
    }
    r
}

/// The string made of the characters `from..to` of `cs`.
pub fn string_of(cs: &Vec<char>, from: usize, to: usize) -> (r: String)
    requires
        from <= to <= cs.len(),
    ensures
        r@ == cs@.subrange(from as int, to as int),
{
    let mut r = String::new();
    let mut i: usize = from;
    while i < to
        invariant
            from <= i <= to <= cs.len(),
            r@ == cs@.subrange(from as int, i as int),
        decreases to - i,
    {
        r.push(cs[i]);
        i = i + 1;
    }
    r
}

/// `str`'s `==` tells whether two slices hold the same characters.
pub assume_specification[ <str as PartialEq>::eq ](a: &str, b: &str) -> (r: bool)
    ensures
        r == (a@ == b@),
;

/// Whether two strings hold the same characters.
pub fn same(a: &str, b: &str) -> (r: bool)
    ensures
        r == (a@ == b@),
{
    a.eq(b)
}

/// Two strings, one after the other.
pub fn concat(a: &str, b: &str) -> (r: String)
    ensures
        r@ == a@ + b@,
{
    let mut r = a.to_owned();
    r.push_str(b);
    r
}

/// Three strings, one after the other.
pub fn concat3(a: &str, b: &str, c: &str) -> (r: String)
    ensures
        r@ == a@ + b@ + c@,
{
    let mut r = a.to_owned();
    r.push_str(b);
    r.push_str(c);
    r
}

/// The characters of each string of a list.
pub open spec fn views(list: Seq<String>) -> Seq<Seq<char>> {
    list.map_values(|s: String| s@)
}

/// A copy of a list of strings.
pub fn copy_strings(list: &Vec<String>) -> (r: Vec<String>)
    ensures
        r@ == list@,
{
    let r = list.clone();
    assert(r@ =~= list@);
    r
}

/// Whether `name` is one of `list`.
pub fn list_contains(list: &Vec<String>, name: &str) -> (r: bool)
    ensures
        r == views(list@).contains(name@),
{
    let mut i: usize = 0;
    while i < list.len()
        invariant
            i <= list.len(),
            forall|j: int| 0 <= j < i ==> list@[j]@ != name@,
        decreases list.len() - i,
    {
        if same(list[i].as_str(), name) {
            proof {
                assert(views(list@)[i as int] == name@);
            }
            return true;
        }
        i = i + 1;
    }
    assert forall|j: int| 0 <= j < views(list@).len() implies views(list@)[j] != name@ by {
        assert(views(list@)[j] == list@[j]@);
    }
    false
}

/// Whether `pat` stands in `s` at position `i`.
pub open spec fn occurs_at(s: Seq<char>, pat: Seq<char>, i: int) -> bool {
    0 <= i && i + pat.len() <= s.len() && s.subrange(i, i + pat.len()) == pat
}

/// The first position at or after `from` at which `pat` stands in `s`.
pub open spec fn find_from(s: Seq<char>, pat: Seq<char>, from: int) -> Option<int>
    decreases s.len() + 1 - from,
{
    if from < 0 || from + pat.len() > s.len() {
        None
    } else if occurs_at(s, pat, from) {
        Some(from)
    } else {
        find_from(s, pat, from + 1)
    }
}

/// Whether `pat` stands anywhere in `s`.
pub open spec fn has_substring(s: Seq<char>, pat: Seq<char>) -> bool {
    exists|i: int| occurs_at(s, pat, i)
}

/// Whether `s` begins with `pat`.
pub open spec fn begins_with(s: Seq<char>, pat: Seq<char>) -> bool {
    occurs_at(s, pat, 0)
}

/// Whether `s` ends with `pat`.
pub open spec fn ends_in(s: Seq<char>, pat: Seq<char>) -> bool {
    occurs_at(s, pat, s.len() - pat.len())
}

/// `find_from` returns the least position that there is, and `None` only where
/// there is none.
pub proof fn lemma_find_from(s: Seq<char>, pat: Seq<char>, from: int)
    requires
        from >= 0,
    ensures
        match find_from(s, pat, from) {
            Some(i) => i >= from && occurs_at(s, pat, i) && forall|j: int|
                from <= j < i ==> !occurs_at(s, pat, j),
            None => forall|j: int| from <= j ==> !occurs_at(s, pat, j),
        },
    decreases s.len() + 1 - from,
{
    if from + pat.len() <= s.len() && !occurs_at(s, pat, from) {
        lemma_find_from(s, pat, from + 1);
    }
}

/// Whether `pat` stands in `cs` at position `at`.
pub fn matches_at(cs: &Vec<char>, pat: &Vec<char>, at: usize) -> (r: bool)
    requires
        at <= cs.len(),
    ensures
        r == occurs_at(cs@, pat@, at as int),
{
    if pat.len() > cs.len() - at {
        return false;
    }
    let mut k: usize = 0;
    while k < pat.len()
        invariant
            k <= pat.len(),
            at + pat.len() <= cs.len(),
            forall|j: int| 0 <= j < k ==> cs@[at + j] == pat@[j],
        decreases pat.len() - k,
    {
        if cs[at + k] != pat[k] {
            proof {
                assert(cs@.subrange(at as int, at + pat.len())[k as int] != pat@[k as int]);
            }
            return false;
        }
        k = k + 1;
    }
    assert(cs@.subrange(at as int, at + pat.len()) =~= pat@);
    true
}

/// The first position at or after `from` at which `pat` stands in `cs`.
pub fn find(cs: &Vec<char>, pat: &Vec<char>, from: usize) -> (r: Option<usize>)
    requires
        from <= cs.len(),
    ensures
        match r {
            Some(i) => find_from(cs@, pat@, from as int) == Some(i as int),
            None => find_from(cs@, pat@, from as int) is None,
        },
{
    let mut i: usize = from;
    while i <= cs.len() && pat.len() <= cs.len() - i
        invariant
            from <= i <= cs.len() + 1,
            find_from(cs@, pat@, from as int) == find_from(cs@, pat@, i as int),
        decreases cs.len() + 1 - i,
    {
        if matches_at(cs, pat, i) {
            return Some(i);
        }
        if i == cs.len() {
            assert(find_from(cs@, pat@, i + 1) is None);
            return None;
        }
        i = i + 1;
    }
    None
}

/// Whether `pat` stands anywhere in `s`.
pub fn contains_str(s: &str, pat: &str) -> (r: bool)
    ensures
        r == has_substring(s@, pat@),
{
    let cs = chars_of(s);
    let ps = chars_of(pat);
    proof {
        lemma_find_from(s@, pat@, 0);
    }
    match find(&cs, &ps, 0) {
        Some(i) => {
            assert(occurs_at(s@, pat@, i as int));
            true
        },
        None => {
            assert forall|j: int| !occurs_at(s@, pat@, j) by {}
            false
        },
    }
}

/// Whether `s` begins with `pat`.
pub fn starts_with(s: &str, pat: &str) -> (r: bool)
    ensures
        r == begins_with(s@, pat@),
{
    matches_at(&chars_of(s), &chars_of(pat), 0)
}

/// Whether `s` ends with `pat`.
pub fn ends_with(s: &str, pat: &str) -> (r: bool)
    ensures
        r == ends_in(s@, pat@),
{
    let cs = chars_of(s);
    let ps = chars_of(pat);
    if ps.len() > cs.len() {
        return false;
    }
    matches_at(&cs, &ps, cs.len() - ps.len())
}

/// The position of the first `c` in `s`.
pub open spec fn position(s: Seq<char>, c: char) -> Option<int> {
    position_from(s, c, 0)
}

/// The position of the first `c` at or after `from` in `s`.
pub open spec fn position_from(s: Seq<char>, c: char, from: int) -> Option<int>
    decreases s.len() - from,
{
    if from < 0 || from >= s.len() {
        None
    } else if s[from] == c {
        Some(from)
    } else {
        position_from(s, c, from + 1)
    }
}

/// `position_from` returns the least position that there is, and `None` only
/// where there is none.
pub proof fn lemma_position_from(s: Seq<char>, c: char, from: int)
    requires
        from >= 0,
    ensures
        match position_from(s, c, from) {
            Some(i) => from <= i < s.len() && s[i] == c && forall|j: int|
                from <= j < i ==> s[j] != c,
            None => forall|j: int| from <= j < s.len() ==> s[j] != c,
        },
    decreases s.len() - from,
{
    if from < s.len() && s[from] != c {
        lemma_position_from(s, c, from + 1);
    }
}

/// The position of the first `c` in `cs`.
pub fn find_char(cs: &Vec<char>, c: char) -> (r: Option<usize>)
    ensures
        match r {
            Some(i) => position(cs@, c) == Some(i as int) && i < cs.len(),
            None => position(cs@, c) is None,
        },
{
    let mut i: usize = 0;
    while i < cs.len()
        invariant
            i <= cs.len(),
            position(cs@, c) == position_from(cs@, c, i as int),
        decreases cs.len() - i,
    {
        if cs[i] == c {
            return Some(i);
        }
        i = i + 1;
    }
    None
}

/// What stands before the first `c` of `s`: the whole of `s` where there is none.
pub open spec fn before(s: Seq<char>, c: char) -> Seq<char> {
    match position(s, c) {
        Some(i) => s.take(i),
        None => s,
    }
}

/// What stands before the first `c` of `s`: the whole of `s` where there is none.
pub fn part_before(s: &str, c: char) -> (r: String)
    ensures
        r@ == before(s@, c),
{
    let cs = chars_of(s);
    match find_char(&cs, c) {
        Some(i) => {
            assert(s@.subrange(0, i as int) =~= s@.take(i as int));
            string_of(&cs, 0, i)
        },
        None => {
            assert(s@.subrange(0, s@.len() as int) =~= s@);
            string_of(&cs, 0, cs.len())
        },
    }
}

/// The pieces of `s` between the occurrences of `c`, in order.
pub open spec fn split_seq(s: Seq<char>, c: char) -> Seq<Seq<char>>
    decreases s.len(),
{
    match position(s, c) {
        Some(i) => if 0 <= i < s.len() {
            seq![s.take(i)] + split_seq(s.skip(i + 1), c)
        } else {
            seq![s]
        },
        None => seq![s],
    }
}

/// The pieces joined, with `sep` between each two.
pub open spec fn join_seq(parts: Seq<Seq<char>>, sep: Seq<char>) -> Seq<char>
    decreases parts.len(),
{
    if parts.len() == 0 {
        Seq::empty()
    } else if parts.len() == 1 {
        parts[0]
    } else {
        join_seq(parts.drop_last(), sep) + sep + parts.last()
    }
}

/// Looking for `c` in `s` from `from` on is looking for it in what follows `from`.
proof fn lemma_position_skip(s: Seq<char>, c: char, from: int, k: int)
    requires
        0 <= from <= s.len(),
        0 <= k,
    ensures
        position_from(s.skip(from), c, k) == match position_from(s, c, from + k) {
            Some(i) => Some(i - from),
            None => None::<int>,
        },
    decreases s.len() - from - k,
{
    if from + k < s.len() {
        assert(s.skip(from)[k] == s[from + k]);
        if s[from + k] != c {
            lemma_position_skip(s, c, from, k + 1);
        }
    }
}

/// The pieces of `s` between the occurrences of `c`, in order.
pub fn split(s: &str, c: char) -> (r: Vec<String>)
    ensures
        views(r@) == split_seq(s@, c),
{
    let cs = chars_of(s);
    let mut r: Vec<String> = Vec::new();
    let mut start: usize = 0;
    let mut i: usize = 0;
    assert(s@.skip(0) =~= s@);
    assert(views(r@) + split_seq(s@, c) =~= split_seq(s@, c));
    while i < cs.len()
        invariant
            cs@ == s@,
            start <= i <= cs.len(),
            split_seq(s@, c) == views(r@) + split_seq(s@.skip(start as int), c),
            position_from(s@, c, start as int) == position_from(s@, c, i as int),
        decreases cs.len() - i,
    {
        if cs[i] == c {
            let piece = string_of(&cs, start, i);
            proof {
                let rest = s@.skip(start as int);
                lemma_position_skip(s@, c, start as int, 0);
                assert(position(rest, c) == Some(i - start));
                assert(rest.take(i - start) =~= piece@);
                assert(rest.skip(i - start + 1) =~= s@.skip(i + 1));
                assert(views(r@.push(piece)) =~= views(r@) + seq![piece@]);
                assert(split_seq(rest, c) == seq![piece@] + split_seq(s@.skip(i + 1), c));
                assert(views(r@) + split_seq(rest, c) =~= views(r@.push(piece)) + split_seq(
                    s@.skip(i + 1),
                    c,
                ));
            }
            r.push(piece);
            start = i + 1;
        }
        i = i + 1;
    }
    let piece = string_of(&cs, start, cs.len());
    proof {
        let rest = s@.skip(start as int);
        lemma_position_skip(s@, c, start as int, 0);
        assert(position(rest, c) is None);
        assert(piece@ =~= rest);
        assert(views(r@.push(piece)) =~= views(r@) + seq![rest]);
    }
    r.push(piece);
    r
}

/// The strings of `parts` joined, with `sep` between each two.
pub fn join(parts: &Vec<String>, sep: &str) -> (r: String)
    ensures
        r@ == join_seq(views(parts@), sep@),
{
    let mut r = String::new();
    let mut i: usize = 0;
    while i < parts.len()
        invariant
            i <= parts.len(),
            r@ == join_seq(views(parts@).take(i as int), sep@),
        decreases parts.len() - i,
    {
        proof {
            let now = views(parts@).take(i + 1);
            assert(now.drop_last() =~= views(parts@).take(i as int));
            assert(now.last() == parts@[i as int]@);
        }
        if i > 0 {
            r.push_str(sep);
        }
        r.push_str(parts[i].as_str());
        proof {
            if i == 0 {
                assert(r@ =~= parts@[0]@);
            }
        }
        i = i + 1;
    }
    assert(views(parts@).take(parts@.len() as int) =~= views(parts@));
    r
}

/// The characters with Unicode's `White_Space` property.
pub open spec fn is_white(c: char) -> bool {
    let n = c as u32;
    ||| 0x9 <= n <= 0xD
    ||| n == 0x20
    ||| n == 0x85
    ||| n == 0xA0
    ||| n == 0x1680
    ||| 0x2000 <= n <= 0x200A
    ||| n == 0x2028
    ||| n == 0x2029
    ||| n == 0x202F
    ||| n == 0x205F
    ||| n == 0x3000
}

/// Whether `c` has Unicode's `White_Space` property.
pub fn is_whitespace(c: char) -> (r: bool)
    ensures
        r == is_white(c),
{
    let n: u32 = c as u32;
    (0x9 <= n && n <= 0xD) || n == 0x20 || n == 0x85 || n == 0xA0 || n == 0x1680 || (0x2000 <= n
        && n <= 0x200A) || n == 0x2028 || n == 0x2029 || n == 0x202F || n == 0x205F || n == 0x3000
}

/// `s` without the whitespace at its beginning.
pub open spec fn trim_start(s: Seq<char>) -> Seq<char>
    decreases s.len(),
{
    if s.len() > 0 && is_white(s[0]) {
        trim_start(s.drop_first())
    } else {
        s
    }
}

/// `s` without the whitespace at its end.
pub open spec fn trim_end(s: Seq<char>) -> Seq<char>
    decreases s.len(),
{
    if s.len() > 0 && is_white(s.last()) {
        trim_end(s.drop_last())
    } else {
        s
    }
}

/// `s` without the whitespace at its two ends.
pub open spec fn trimmed(s: Seq<char>) -> Seq<char> {
    trim_end(trim_start(s))
}

/// `s` without the whitespace at its two ends.
pub fn trim(s: &str) -> (r: String)
    ensures
        r@ == trimmed(s@),
{
    let cs = chars_of(s);
    let mut i: usize = 0;
    assert(cs@.skip(0) =~= cs@);
    while i < cs.len() && is_whitespace(cs[i])
        invariant
            i <= cs.len(),
            trim_start(cs@) == trim_start(cs@.skip(i as int)),
        decreases cs.len() - i,
    {
        assert(cs@.skip(i as int).drop_first() =~= cs@.skip(i + 1));
        i = i + 1;
    }
    assert(trim_start(cs@) == cs@.skip(i as int));
    let mut j: usize = cs.len();
    assert(cs@.subrange(i as int, j as int) =~= cs@.skip(i as int));
    while j > i && is_whitespace(cs[j - 1])
        invariant
            i <= j <= cs.len(),
            trim_end(cs@.skip(i as int)) == trim_end(cs@.subrange(i as int, j as int)),
        decreases j - i,
    {
        let ghost now = cs@.subrange(i as int, j as int);
        assert(now.last() == cs@[j - 1]);
        assert(now.drop_last() =~= cs@.subrange(i as int, j - 1));
        j = j - 1;
    }
    proof {
        let now = cs@.subrange(i as int, j as int);
        if j > i {
            assert(now.last() == cs@[j - 1]);
        }
    }
    string_of(&cs, i, j)
}

/// The character of a decimal digit.
pub open spec fn digit_char(d: int) -> char {
    (48 + d) as char
}

/// A number in decimal, without leading zeros.
pub open spec fn decimal(n: nat) -> Seq<char>
    decreases n,
{
    if n < 10 {
        seq![digit_char(n as int)]
    } else {
        decimal(n / 10).push(digit_char((n % 10) as int))
    }
}

/// The character of a decimal digit.
fn digit(d: u8) -> (c: char)
    requires
        d < 10,
    ensures
        c == digit_char(d as int),
{
    (48 + d) as char
}

/// `n` in decimal.
pub fn decimal_of(n: u64) -> (r: String)
    ensures
        r@ == decimal(n as nat),
    decreases n,
{
    let low: u8 = (n % 10) as u8;
    if n < 10 {
        let mut r = String::new();
        r.push(digit(low));
        assert(r@ =~= seq![digit_char(n as int)]);
        r
    } else {
        let mut r = decimal_of(n / 10);
        r.push(digit(low));
        r
    }
}

/// What `str::to_lowercase` makes of a text: the lowercase mapping of Unicode.
pub uninterp spec fn lowercase(s: Seq<char>) -> Seq<char>;

/// A character with an ASCII capital letter turned into its small letter.
pub open spec fn ascii_lower(c: char) -> char {
    if 'A' <= c <= 'Z' {
        (c as u32 + 32) as char
    } else {
        c
    }
}

/// Whether a text is ASCII.
pub open spec fn is_ascii(s: Seq<char>) -> bool {
    forall|i: int| 0 <= i < s.len() ==> (#[trigger] s[i] as u32) < 128
}

/// A text with its ASCII capital letters turned into small letters.
pub open spec fn ascii_lowercase(s: Seq<char>) -> Seq<char> {
    s.map_values(|c: char| ascii_lower(c))
}

/// A text with its ASCII capital letters turned into small letters.
pub fn fold_ascii(cs: &Vec<char>) -> (r: Vec<char>)
    ensures
        r@ == ascii_lowercase(cs@),
{
    let mut r: Vec<char> = Vec::new();
    let mut i: usize = 0;
    while i < cs.len()
        invariant
            i <= cs.len(),
            r@ =~= ascii_lowercase(cs@.take(i as int)),
        decreases cs.len() - i,
    {
        let c: char = cs[i];
        let lower: char = if 'A' <= c && c <= 'Z' {
            (c as u8 + 32) as char
        } else {
            c
        };
        r.push(lower);
        i = i + 1;
    }
    assert(cs@.take(cs@.len() as int) =~= cs@);
    r
}

/// `str::to_lowercase`. The mapping is Unicode's and depends on the text alone; of ASCII text
/// it turns the capital letters into small ones.
#[verifier::external_body]
pub(crate) fn to_lowercase(s: &str) -> (r: String)
    ensures
        r@ == lowercase(s@),
        is_ascii(s@) ==> r@ == ascii_lowercase(s@),
{
    s.to_lowercase()
}

/// What std says of bytes that are not valid UTF-8.
pub uninterp spec fn utf8_error(bytes: Seq<u8>) -> Seq<char>;

/// `String::from_utf8`: the text that the bytes encode, where they are valid UTF-8,
/// else the text of the error, which depends on the bytes alone.
#[verifier::external_body]
pub(crate) fn from_utf8(bytes: Vec<u8>) -> (r: Result<String, String>)
    ensures
        match r {
            Ok(s) => vstd::utf8::valid_utf8(bytes@) && s@ == vstd::utf8::decode_utf8(bytes@),
            Err(e) => !vstd::utf8::valid_utf8(bytes@) && e@ == utf8_error(bytes@),
        },
{
    String::from_utf8(bytes).map_err(|e| e.to_string())
}

/// Whether `a` comes before `b`, or is `b`, by code points: the order of `str`.
pub open spec fn text_le(a: Seq<char>, b: Seq<char>) -> bool
    decreases a.len(),
{
    if a.len() == 0 {
        true
    } else if b.len() == 0 {
        false
    } else if a[0] != b[0] {
        a[0] < b[0]
    } else {
        text_le(a.drop_first(), b.drop_first())
    }
}

/// The names in ascending order.
pub open spec fn sorted_names(names: Seq<Seq<char>>) -> Seq<Seq<char>> {
    names.sort_by(|a: Seq<char>, b: Seq<char>| text_le(a, b))
}

proof fn lemma_text_le_reflexive(a: Seq<char>)
    ensures
        text_le(a, a),
    decreases a.len(),
{
    if a.len() > 0 {
        lemma_text_le_reflexive(a.drop_first());
    }
}

proof fn lemma_text_le_connected(a: Seq<char>, b: Seq<char>)
    ensures
        text_le(a, b) || text_le(b, a),
    decreases a.len(),
{
    if a.len() > 0 && b.len() > 0 && a[0] == b[0] {
        lemma_text_le_connected(a.drop_first(), b.drop_first());
    }
}

proof fn lemma_text_le_antisymmetric(a: Seq<char>, b: Seq<char>)
    requires
        text_le(a, b),
        text_le(b, a),
    ensures
        a == b,
    decreases a.len(),
{
    if a.len() > 0 && b.len() > 0 {
        lemma_text_le_antisymmetric(a.drop_first(), b.drop_first());
        assert(a =~= seq![a[0]] + a.drop_first());
        assert(b =~= seq![b[0]] + b.drop_first());
    } else {
        assert(a =~= b);
    }
}

proof fn lemma_text_le_transitive(a: Seq<char>, b: Seq<char>, c: Seq<char>)
    requires
        text_le(a, b),
        text_le(b, c),
    ensures
        text_le(a, c),
    decreases a.len(),
{
    if a.len() > 0 && b.len() > 0 && c.len() > 0 && a[0] == b[0] && b[0] == c[0] {
        lemma_text_le_transitive(a.drop_first(), b.drop_first(), c.drop_first());
    }
}

/// Names are totally ordered.
pub proof fn lemma_text_le_total()
    ensures
        vstd::relations::total_ordering(|a: Seq<char>, b: Seq<char>| text_le(a, b)),
{
    assert forall|a: Seq<char>| text_le(a, a) by {
        lemma_text_le_reflexive(a);
    }
    assert forall|a: Seq<char>, b: Seq<char>| text_le(a, b) && text_le(b, a) implies a == b by {
        lemma_text_le_antisymmetric(a, b);
    }
    assert forall|a: Seq<char>, b: Seq<char>, c: Seq<char>|
        text_le(a, b) && text_le(b, c) implies text_le(a, c) by {
        lemma_text_le_transitive(a, b, c);
    }
    assert forall|a: Seq<char>, b: Seq<char>| text_le(a, b) || text_le(b, a) by {
        lemma_text_le_connected(a, b);
    }
}

/// Whether `a` comes before `b`, or is `b`.
pub fn name_le(a: &str, b: &str) -> (r: bool)
    ensures
        r == text_le(a@, b@),
{
    let x = chars_of(a);
    let y = chars_of(b);
    let mut i: usize = 0;
    assert(a@.skip(0) =~= a@);
    assert(b@.skip(0) =~= b@);
    while i < x.len() && i < y.len() && x[i] == y[i]
        invariant
            x@ == a@,
            y@ == b@,
            i <= x.len(),
            i <= y.len(),
            text_le(a@, b@) == text_le(a@.skip(i as int), b@.skip(i as int)),
        decreases x.len() - i,
    {
        assert(a@.skip(i as int).drop_first() =~= a@.skip(i + 1));
        assert(b@.skip(i as int).drop_first() =~= b@.skip(i + 1));
        i = i + 1;
    }
    if i == x.len() {
        true
    } else if i == y.len() {
        false
    } else {
        x[i] < y[i]
    }
}

/// The names in ascending order.
pub fn sort_names(names: &Vec<String>) -> (r: Vec<String>)
    ensures
        views(r@) == sorted_names(views(names@)),
        r@.to_multiset() == names@.to_multiset(),
{
    let ghost le = |a: Seq<char>, b: Seq<char>| text_le(a, b);
    proof {
        lemma_text_le_total();
    }
    let mut r: Vec<String> = Vec::new();
    let mut i: usize = 0;
    proof {
        assert(names@.take(0) =~= Seq::empty());
        assert(views(r@) =~= views(names@.take(0)));
    }
    while i < names.len()
        invariant
            i <= names.len(),
            le == (|a: Seq<char>, b: Seq<char>| text_le(a, b)),
            vstd::relations::total_ordering(le),
            r@.to_multiset() == names@.take(i as int).to_multiset(),
            views(r@).to_multiset() == views(names@.take(i as int)).to_multiset(),
            vstd::relations::sorted_by(views(r@), le),
        decreases names.len() - i,
    {
        let mut k: usize = 0;
        while k < r.len() && name_le(r[k].as_str(), names[i].as_str())
            invariant
                k <= r.len(),
                i < names.len(),
                forall|j: int| 0 <= j < k ==> text_le(r@[j]@, names@[i as int]@),
            decreases r.len() - k,
        {
            k = k + 1;
        }
        let ghost prior = r@;
        r.insert(k, names[i].clone());
        proof {
            let x = names@[i as int];
            lemma_insert_sorted(prior, x, k as int);
            lemma_insert_multiset(prior, x, k as int);
            assert(views(prior.insert(k as int, x)) =~= views(prior).insert(k as int, x@));
            lemma_insert_multiset(views(prior), x@, k as int);
            let t = names@.take(i as int);
            assert(names@.take(i + 1) =~= t.push(x));
            assert(views(t.push(x)) =~= views(t).push(x@));
            vstd::seq_lib::to_multiset_build(t, x);
            vstd::seq_lib::to_multiset_build(views(t), x@);
        }
        i = i + 1;
    }
    proof {
        assert(names@.take(names@.len() as int) =~= names@);
        views(names@).lemma_sort_by_ensures(le);
        vstd::seq_lib::lemma_sorted_unique(views(r@), sorted_names(views(names@)), le);
    }
    r
}

proof fn lemma_insert_multiset<A>(s: Seq<A>, x: A, k: int)
    requires
        0 <= k <= s.len(),
    ensures
        s.insert(k, x).to_multiset() == s.to_multiset().insert(x),
{
    vstd::seq_lib::to_multiset_insert(s, k, x);
}

proof fn lemma_insert_sorted(s: Seq<String>, x: String, k: int)
    requires
        0 <= k <= s.len(),
        vstd::relations::sorted_by(views(s), |a: Seq<char>, b: Seq<char>| text_le(a, b)),
        forall|j: int| 0 <= j < k ==> text_le(s[j]@, x@),
        k < s.len() ==> !text_le(s[k]@, x@),
    ensures
        vstd::relations::sorted_by(
            views(s.insert(k, x)),
            |a: Seq<char>, b: Seq<char>| text_le(a, b),
        ),
{
    let le = |a: Seq<char>, b: Seq<char>| text_le(a, b);
    let t = views(s.insert(k, x));
    assert(t =~= views(s).insert(k, x@));
    assert forall|i: int, j: int| 0 <= i < j < t.len() implies #[trigger] le(t[i], t[j]) by {
        if i < k && j == k {
            assert(t[i] == s[i]@);
        } else if i == k {
            assert(t[j] == s[j - 1]@);
            lemma_text_le_connected(s[k]@, x@);
            lemma_text_le_reflexive(s[k]@);
            if j - 1 > k {
                assert(le(views(s)[k], views(s)[j - 1]));
            }
            lemma_text_le_transitive(x@, s[k]@, s[j - 1]@);
        } else {
            let a = if i < k { i } else { i - 1 };
            let b = if j < k { j } else { j - 1 };
            assert(t[i] == views(s)[a] && t[j] == views(s)[b]);
            assert(le(views(s)[a], views(s)[b]));
        }
    }
}

/// A path with one more component: that component alone where it is absolute or
/// the path is empty, and a slash between the two unless the path ends in one.
pub open spec fn joined_path(base: Seq<char>, part: Seq<char>) -> Seq<char> {
    if base.len() == 0 || (part.len() > 0 && part[0] == '/') {
        part
    } else if base.last() == '/' {
        base + part
    } else {
        base.push('/') + part
    }
}

/// `part` under the directory `base`.
pub fn join_path(base: &str, part: &str) -> (r: String)
    ensures
        r@ == joined_path(base@, part@),
{
    let dir = chars_of(base);
    let name = chars_of(part);
    if dir.len() == 0 || (name.len() > 0 && name[0] == '/') {
        return part.to_owned();
    }
    let mut r = base.to_owned();
    if dir[dir.len() - 1] != '/' {
        r.push('/');
    }
    r.push_str(part);
    r
}

/// Whether a character is an ASCII digit.
pub open spec fn is_digit(c: char) -> bool {
    '0' <= c <= '9'
}

/// The number that a row of decimal digits stands for.
pub open spec fn digits_value(s: Seq<char>) -> nat
    decreases s.len(),
{
    if s.len() == 0 {
        0
    } else {
        10 * digits_value(s.drop_last()) + if is_digit(s.last()) {
            (s.last() as u32 - 48) as nat
        } else {
            0nat
        }
    }
}

/// The number up to `max` that a row of decimal digits stands for, of which there is
/// at least one.
pub open spec fn digits_number(digits: Seq<char>, max: nat) -> Option<nat> {
    if digits.len() > 0 && (forall|i: int| 0 <= i < digits.len() ==> is_digit(digits[i]))
        && digits_value(digits) <= max {
        Some(digits_value(digits))
    } else {
        None
    }
}

/// The number up to `max` that a text stands for: decimal digits, at least one, and
/// perhaps a plus sign before them.
pub open spec fn parsed_number(s: Seq<char>, max: nat) -> Option<nat> {
    if s.len() > 0 && s[0] == '+' {
        digits_number(s.skip(1), max)
    } else {
        digits_number(s, max)
    }
}

proof fn lemma_digits_value_grows(s: Seq<char>, n: int)
    requires
        0 <= n <= s.len(),
    ensures
        digits_value(s.take(n)) <= digits_value(s),
    decreases s.len(),
{
    if n < s.len() {
        lemma_digits_value_grows(s.drop_last(), n);
        assert(s.drop_last().take(n) =~= s.take(n));
    } else {
        assert(s.take(n) =~= s);
    }
}

/// The number up to `max` that a text stands for.
pub fn parse_number(s: &str, max: u64) -> (r: Option<u64>)
    ensures
        match r {
            Some(n) => parsed_number(s@, max as nat) == Some(n as nat),
            None => parsed_number(s@, max as nat) is None,
        },
{
    let cs = chars_of(s);
    let start: usize = if cs.len() > 0 && cs[0] == '+' {
        1
    } else {
        0
    };
    let ghost digits = cs@.skip(start as int);
    assert(cs@.skip(0) =~= cs@);
    assert(parsed_number(s@, max as nat) == digits_number(digits, max as nat));
    if start == cs.len() {
        return None;
    }
    let mut value: u64 = 0;
    let mut i: usize = start;
    while i < cs.len()
        invariant
            start <= i <= cs.len(),
            digits == cs@.skip(start as int),
            parsed_number(s@, max as nat) == digits_number(digits, max as nat),
            forall|j: int| 0 <= j < i - start ==> is_digit(digits[j]),
            value == digits_value(digits.take(i - start)),
            value <= max,
        decreases cs.len() - i,
    {
        let c = cs[i];
        let ghost k = i - start;
        assert(c == digits[k]);
        if !(c >= '0' && c <= '9') {
            assert(!is_digit(digits[k]));
            return None;
        }
        let d: u64 = (c as u32 - 48) as u64;
        let grown: u128 = 10 * (value as u128) + d as u128;
        proof {
            assert(digits.take(k + 1).drop_last() =~= digits.take(k));
            assert(digits.take(k + 1).last() == c);
            assert(grown == digits_value(digits.take(k + 1)));
            lemma_digits_value_grows(digits, k + 1);
        }
        if grown > max as u128 {
            return None;
        }
        value = grown as u64;
        i = i + 1;
    }
    assert(digits.take(digits.len() as int) =~= digits);
    Some(value)
}

/// A number in decimal, with a minus sign where it is negative.
pub open spec fn signed_decimal(n: int) -> Seq<char> {
    if n < 0 {
        "-"@ + decimal((-n) as nat)
    } else {
        decimal(n as nat)
    }
}

/// `n` in decimal.
pub fn signed_decimal_of(n: i64) -> (r: String)
    ensures
        r@ == signed_decimal(n as int),
{
    if n < 0 {
        let size: u64 = (0 - n as i128) as u64;
        concat("-", decimal_of(size).as_str())
    } else {
        decimal_of(n as u64)
    }
}

/// A number in decimal is a row of digits that stands for it, without a sign.
pub proof fn lemma_decimal(n: nat)
    ensures
        decimal(n).len() > 0,
        forall|i: int| 0 <= i < decimal(n).len() ==> is_digit(#[trigger] decimal(n)[i]),
        digits_value(decimal(n)) == n,
    decreases n,
{
    if n < 10 {
        assert(decimal(n).drop_last() =~= Seq::empty());
        assert(digit_char(n as int) as u32 == 48 + n);
        assert(digits_value(Seq::<char>::empty()) == 0);
        assert(decimal(n).last() == digit_char(n as int));
    } else {
        lemma_decimal(n / 10);
        let last = digit_char((n % 10) as int);
        assert(decimal(n).drop_last() =~= decimal(n / 10));
        assert(last as u32 == 48 + n % 10);
        assert(decimal(n).last() == last);
        assert forall|i: int| 0 <= i < decimal(n).len() implies is_digit(#[trigger] decimal(n)[i]) by {
            if i < decimal(n / 10).len() {
                assert(decimal(n)[i] == decimal(n / 10)[i]);
            }
        }
    }
}

/// Joining pieces is joining the rest to the first of them.
pub proof fn lemma_join_first(pieces: Seq<Seq<char>>, sep: Seq<char>)
    requires
        pieces.len() > 1,
    ensures
        join_seq(pieces, sep) == pieces[0] + sep + join_seq(pieces.drop_first(), sep),
    decreases pieces.len(),
{
    let rest = pieces.drop_first();
    let front = pieces.drop_last();
    if pieces.len() == 2 {
        assert(join_seq(front, sep) == front[0] && join_seq(rest, sep) == rest[0]);
        assert(join_seq(pieces, sep) =~= pieces[0] + sep + pieces[1]);
    } else {
        lemma_join_first(front, sep);
        assert(front.drop_first() =~= rest.drop_last());
        assert(join_seq(pieces, sep) =~= pieces[0] + sep + join_seq(rest, sep));
    }
}

/// Space, tab, line feed and carriage return are white; no character that ASCII shows is.
pub proof fn what_is_seen_is_not_white(c: char)
    ensures
        c == ' ' || c == '\t' || c == '\n' || c == '\r' ==> is_white(c),
        0x21 <= c as u32 <= 0x7E ==> !is_white(c),
{
}

proof fn lemma_trim_start(s: Seq<char>) -> (n: int)
    ensures
        0 <= n <= s.len(),
        trim_start(s) == s.skip(n),
        forall|i: int| 0 <= i < n ==> is_white(#[trigger] s[i]),
        n < s.len() ==> !is_white(s[n]),
    decreases s.len(),
{
    if s.len() > 0 && is_white(s[0]) {
        let rest = s.drop_first();
        let k = lemma_trim_start(rest);
        assert(rest.skip(k) =~= s.skip(k + 1));
        assert forall|i: int| 0 <= i < k + 1 implies is_white(#[trigger] s[i]) by {
            if i > 0 {
                assert(s[i] == rest[i - 1]);
            }
        }
        if k < rest.len() {
            assert(rest[k] == s[k + 1]);
        }
        k + 1
    } else {
        assert(s.skip(0) =~= s);
        0
    }
}

proof fn lemma_trim_end(s: Seq<char>) -> (n: int)
    ensures
        0 <= n <= s.len(),
        trim_end(s) == s.take(n),
        forall|i: int| n <= i < s.len() ==> is_white(#[trigger] s[i]),
        n > 0 ==> !is_white(s[n - 1]),
    decreases s.len(),
{
    if s.len() > 0 && is_white(s.last()) {
        let front = s.drop_last();
        let k = lemma_trim_end(front);
        assert(front.take(k) =~= s.take(k));
        assert forall|i: int| k <= i < s.len() implies is_white(#[trigger] s[i]) by {
            if i < front.len() {
                assert(s[i] == front[i]);
            }
        }
        k
    } else {
        assert(s.take(s.len() as int) =~= s);
        s.len() as int
    }
}

/// Trimming takes off the white at the two ends, all of it and nothing else: of a text that is
/// white throughout nothing is left.
pub proof fn trimming_takes_the_white_at_the_ends(s: Seq<char>)
    ensures
        exists|a: int, b: int|
            0 <= a <= b <= s.len() && trimmed(s) == #[trigger] s.subrange(a, b) && (forall|i: int|
                0 <= i < a || b <= i < s.len() ==> is_white(#[trigger] s[i])),
        trimmed(s).len() > 0 ==> !is_white(trimmed(s)[0]) && !is_white(trimmed(s).last()),
        trimmed(s).len() == 0 <==> forall|i: int| 0 <= i < s.len() ==> is_white(#[trigger] s[i]),
{
    let a = lemma_trim_start(s);
    let rest = trim_start(s);
    let n = lemma_trim_end(rest);
    let b = a + n;
    assert(trimmed(s) =~= s.subrange(a, b));
    assert forall|i: int| 0 <= i < a || b <= i < s.len() implies is_white(#[trigger] s[i]) by {
        if i >= b {
            assert(s[i] == rest[i - a]);
        }
    }
    if n > 0 {
        assert(rest[n - 1] == s[b - 1]);
        assert(rest[0] == s[a]);
        assert(trimmed(s)[0] == s[a]);
        assert(trimmed(s).last() == s[b - 1]);
    }
}

/// A number that is written in decimal is read back, where it is within the bounds, and has no
/// leading zero.
pub proof fn written_numbers_are_read_back(n: nat, max: nat)
    ensures
        parsed_number(decimal(n), max) == (if n <= max {
            Some(n)
        } else {
            None
        }),
        parsed_number(seq!['+'] + decimal(n), max) == parsed_number(decimal(n), max),
        n > 0 ==> decimal(n)[0] != '0',
    decreases n,
{
    lemma_decimal(n);
    assert(is_digit(decimal(n)[0]));
    assert((seq!['+'] + decimal(n)).skip(1) =~= decimal(n));
    if n >= 10 {
        written_numbers_are_read_back(n / 10, max);
        assert(decimal(n)[0] == decimal(n / 10)[0]) by {
            lemma_decimal(n / 10);
        }
    }
}

/// What is no row of digits, but for a plus sign before it, is no number.
pub proof fn only_digits_are_numbers(s: Seq<char>, max: nat, i: int)
    requires
        0 <= i < s.len(),
        !('0' <= s[i] <= '9'),
        i > 0 || s[i] != '+' || s.len() == 1,
    ensures
        parsed_number(s, max) is None,
{
    if s[0] == '+' {
        let digits = s.skip(1);
        if i > 0 {
            assert(digits[i - 1] == s[i]);
            assert(!is_digit(digits[i - 1]));
        }
    } else {
        assert(!is_digit(s[i]));
    }
}

/// In lowercase the capital letters of ASCII are the small ones, 32 places further on, and
/// every other character stays.
pub proof fn only_capitals_change_in_lowercase(s: Seq<char>, i: int)
    requires
        0 <= i < s.len(),
    ensures
        ascii_lowercase(s).len() == s.len(),
        0x41 <= s[i] as u32 <= 0x5A ==> ascii_lowercase(s)[i] as u32 == s[i] as u32 + 32,
        !(0x41 <= s[i] as u32 <= 0x5A) ==> ascii_lowercase(s)[i] == s[i],
{
}

/// A part lies under its directory, one slash between the two, unless it is absolute or there is
/// no directory.
pub proof fn parts_lie_under_their_directory(base: Seq<char>, part: Seq<char>)
    ensures
        base.len() > 0 && !(part.len() > 0 && part[0] == '/') ==> {
            &&& base.last() != '/' ==> joined_path(base, part) == base + seq!['/'] + part
            &&& base.last() == '/' ==> joined_path(base, part) == base + part
        },
        part.len() > 0 && part[0] == '/' ==> joined_path(base, part) == part,
        base.len() == 0 ==> joined_path(base, part) == part,
{
    assert(base.push('/') =~= base + seq!['/']);
}

/// What stands before a character is the beginning of the text up to the first of its kind.
pub proof fn before_ends_at_the_first(s: Seq<char>, c: char)
    ensures
        !before(s, c).contains(c),
        before(s, c).is_prefix_of(s),
        before(s, c).len() < s.len() ==> s[before(s, c).len() as int] == c,
{
    lemma_position_from(s, c, 0);
    assert(before(s, c) =~= s.subrange(0, before(s, c).len() as int));
}

/// Names are ordered by the first character in which they differ, by its code point, and a name
/// comes before those that it begins.
pub proof fn the_first_difference_decides(a: Seq<char>, b: Seq<char>, i: int)
    requires
        0 <= i <= a.len(),
        i <= b.len(),
        forall|j: int| 0 <= j < i ==> a[j] == b[j],
    ensures
        i == a.len() ==> text_le(a, b),
        i < a.len() && i == b.len() ==> !text_le(a, b),
        i < a.len() && i < b.len() && a[i] != b[i] ==> (text_le(a, b) <==> a[i] < b[i]),
    decreases i,
{
    if i > 0 {
        let x = a.drop_first();
        let y = b.drop_first();
        assert forall|j: int| 0 <= j < i - 1 implies x[j] == y[j] by {
            assert(x[j] == a[j + 1] && y[j] == b[j + 1]);
        }
        assert(a[0] == b[0]);
        the_first_difference_decides(x, y, i - 1);
    }
}

/// Sorting keeps the names and puts them in order.
pub proof fn sorted_names_are_in_order(names: Seq<Seq<char>>, i: int, j: int)
    ensures
        sorted_names(names).to_multiset() == names.to_multiset(),
        sorted_names(names).len() == names.len(),
        0 <= i < j < sorted_names(names).len() ==> text_le(
            sorted_names(names)[i],
            sorted_names(names)[j],
        ),
{
    let le = |a: Seq<char>, b: Seq<char>| text_le(a, b);
    lemma_text_le_total();
    names.lemma_sort_by_ensures(le);
    vstd::seq_lib::to_multiset_len(names);
    vstd::seq_lib::to_multiset_len(sorted_names(names));
    if 0 <= i < j < sorted_names(names).len() {
        assert(le(sorted_names(names)[i], sorted_names(names)[j]));
    }
}

/// Splitting loses nothing: the pieces with the character between them are the text again, and
/// no piece holds the character.
pub proof fn split_pieces_make_up_the_text(s: Seq<char>, c: char)
    ensures
        split_seq(s, c).len() > 0,
        join_seq(split_seq(s, c), seq![c]) == s,
        forall|k: int| 0 <= k < split_seq(s, c).len() ==> !(#[trigger] split_seq(s, c)[k]).contains(c),
    decreases s.len(),
{
    lemma_position_from(s, c, 0);
    let pieces = split_seq(s, c);
    match position(s, c) {
        Some(i) => {
            let first = s.take(i);
            let rest = s.skip(i + 1);
            let others = split_seq(rest, c);
            split_pieces_make_up_the_text(rest, c);
            assert(pieces =~= seq![first] + others);
            assert(pieces.drop_first() =~= others);
            lemma_join_first(pieces, seq![c]);
            assert(first + seq![c] + rest =~= s);
            assert forall|k: int| 0 <= k < pieces.len() implies !(#[trigger] pieces[k]).contains(
                c,
            ) by {
                if k > 0 {
                    assert(pieces[k] == others[k - 1]);
                }
            }
        },
        None => {
            assert(pieces =~= seq![s]);
        },
    }
}

/// A negative number is written with a minus sign before its size, and no other has a sign.
pub proof fn only_negative_numbers_have_a_sign(n: int)
    ensures
        n >= 0 ==> signed_decimal(n) == decimal(n as nat) && '0' <= signed_decimal(n)[0] <= '9',
        n < 0 ==> signed_decimal(n) == seq!['-'] + decimal((-n) as nat),
{
    reveal_strlit("-");
    assert("-"@ =~= seq!['-']);
    if n >= 0 {
        lemma_decimal(n as nat);
        assert(is_digit(decimal(n as nat)[0]));
    }
}

} // verus!
