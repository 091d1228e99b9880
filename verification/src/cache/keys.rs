//! The keys under which responses are cached.

use crate::search::request::{Freshness, SearchRequest};
use crate::text;
use sha2::Digest;
use vstd::prelude::*;

verus! {

/// The SHA-256 digest of a sequence of bytes.
pub uninterp spec fn sha256(bytes: Seq<u8>) -> Seq<u8>;

/// `sha2::Sha256::digest`: the digest of the bytes, which is 32 bytes long.
#[verifier::external_body]
fn sha256_digest(bytes: &[u8]) -> (r: Vec<u8>)
    ensures
        r@ == sha256(bytes@),
        r@.len() == 32,
{
    sha2::Sha256::digest(bytes).to_vec()
}

/// The lowercase hexadecimal digit of a number below 16.
pub open spec fn hex_digit(n: int) -> char {
    if n < 10 {
        (48 + n) as char
    } else {
        (87 + n) as char
    }
}

/// Two lowercase hexadecimal digits for each byte, in order.
pub open spec fn hex(bytes: Seq<u8>) -> Seq<char>
    decreases bytes.len(),
{
    if bytes.len() == 0 {
        Seq::empty()
    } else {
        hex(bytes.drop_last()).push(hex_digit(bytes.last() as int / 16)).push(
            hex_digit(bytes.last() as int % 16),
        )
    }
}

/// The word for a freshness filter.
pub open spec fn freshness_word(freshness: Freshness) -> Seq<char> {
    match freshness {
        Freshness::Day => "day"@,
        Freshness::Week => "week"@,
        Freshness::Month => "month"@,
        Freshness::Year => "year"@,
    }
}

/// Each name after a pipe character.
pub open spec fn piped(names: Seq<Seq<char>>) -> Seq<char>
    decreases names.len(),
{
    if names.len() == 0 {
        Seq::empty()
    } else {
        piped(names.drop_last()) + "|"@ + names.last()
    }
}

/// A labelled value, or nothing.
pub open spec fn labelled(label: Seq<char>, value: Option<Seq<char>>) -> Seq<char> {
    match value {
        Some(v) => label + v,
        None => Seq::empty(),
    }
}

/// The freshness part of a key.
pub open spec fn freshness_part(freshness: Option<Freshness>) -> Seq<char> {
    labelled(
        "|freshness="@,
        match freshness {
            Some(f) => Some(freshness_word(f)),
            None => None,
        },
    )
}

/// The text that a key is the digest of: the query, the provider names in ascending
/// order, and the freshness filter where there is one.
pub open spec fn key_material(
    query: Seq<char>,
    providers: Seq<Seq<char>>,
    freshness: Option<Freshness>,
) -> Seq<char> {
    query + piped(text::sorted_names(providers)) + freshness_part(freshness)
}

/// The characters of an optional string.
pub open spec fn option_view(s: Option<String>) -> Option<Seq<char>> {
    match s {
        Some(v) => Some(v@),
        None => None,
    }
}

/// A part of a text to digest: its length, a colon, and the part itself, so that no part can
/// be taken for another.
pub open spec fn framed(part: Seq<char>) -> Seq<char> {
    text::decimal(part.len()) + ":"@ + part
}

/// Each of a list of parts with its length in front.
pub open spec fn framed_all(parts: Seq<Seq<char>>) -> Seq<char>
    decreases parts.len(),
{
    if parts.len() == 0 {
        Seq::empty()
    } else {
        framed(parts[0]) + framed_all(parts.drop_first())
    }
}

/// A part that may be missing: a sign that says so, and the part if it is there.
pub open spec fn framed_option(part: Option<Seq<char>>) -> Seq<char> {
    match part {
        Some(v) => "+"@ + framed(v),
        None => "-"@,
    }
}

/// The word for a freshness filter, if there is one.
pub open spec fn freshness_view(freshness: Option<Freshness>) -> Option<Seq<char>> {
    match freshness {
        Some(f) => Some(freshness_word(f)),
        None => None,
    }
}

/// The text that the key of a request is the digest of: the query, the number of providers
/// and their names in ascending order, the freshness filter, the language and the country.
pub open spec fn request_material(request: SearchRequest, providers: Seq<Seq<char>>) -> Seq<char> {
    framed(request.query@) + (text::decimal(providers.len()) + ":"@ + (framed_all(
        text::sorted_names(providers),
    ) + (framed_option(freshness_view(request.freshness)) + (framed_option(
        option_view(request.language),
    ) + framed_option(option_view(request.country))))))
}

/// The key with the given material: its digest, in hexadecimal.
pub open spec fn key_of(material: Seq<char>) -> Seq<char> {
    hex(sha256(vstd::utf8::encode_utf8(material)))
}

fn digit(n: u8) -> (c: char)
    requires
        n < 16,
    ensures
        c == hex_digit(n as int),
{
    if n < 10 {
        (48 + n) as char
    } else {
        (87 + n) as char
    }
}

/// Two lowercase hexadecimal digits for each byte.
pub fn hex_of(bytes: &Vec<u8>) -> (r: String)
    ensures
        r@ == hex(bytes@),
{
    let mut r = String::new();
    let mut i: usize = 0;
    assert(bytes@.take(0) =~= Seq::empty());
    while i < bytes.len()
        invariant
            i <= bytes.len(),
            r@ == hex(bytes@.take(i as int)),
        decreases bytes.len() - i,
    {
        proof {
            assert(bytes@.take(i + 1).drop_last() =~= bytes@.take(i as int));
            assert(bytes@.take(i + 1).last() == bytes@[i as int]);
        }
        r.push(digit(bytes[i] / 16));
        r.push(digit(bytes[i] % 16));
        i = i + 1;
    }
    assert(bytes@.take(bytes@.len() as int) =~= bytes@);
    r
}

/// A vector with the strings of a slice.
fn strings_of(names: &[String]) -> (r: Vec<String>)
    ensures
        r@ == names@,
{
    let mut r: Vec<String> = Vec::new();
    let mut i: usize = 0;
    while i < names.len()
        invariant
            i <= names.len(),
            r@ == names@.take(i as int),
        decreases names.len() - i,
    {
        r.push(names[i].clone());
        assert(r@ =~= names@.take(i + 1));
        i = i + 1;
    }
    assert(r@ =~= names@);
    r
}

fn material_of(query: &str, providers: &[String], freshness: Option<&Freshness>) -> (r: String)
    ensures
        r@ == key_material(
            query@,
            text::views(providers@),
            match freshness {
                Some(f) => Some(*f),
                None => None,
            },
        ),
{
    // Sort provider names so order does not affect the key.
    let sorted = text::sort_names(&strings_of(providers));
    let mut material = query.to_owned();
    let mut i: usize = 0;
    assert(text::views(sorted@).take(0) =~= Seq::empty());
    assert(material@ =~= query@ + piped(text::views(sorted@).take(0)));
    while i < sorted.len()
        invariant
            i <= sorted.len(),
            material@ == query@ + piped(text::views(sorted@).take(i as int)),
        decreases sorted.len() - i,
    {
        proof {
            let now = text::views(sorted@).take(i + 1);
            assert(now.drop_last() =~= text::views(sorted@).take(i as int));
            assert(now.last() == sorted@[i as int]@);
            assert(query@ + piped(now) =~= query@ + piped(now.drop_last()) + "|"@ + now.last());
        }
        material.push_str("|");
        material.push_str(sorted[i].as_str());
        i = i + 1;
    }
    proof {
        assert(text::views(sorted@).take(sorted@.len() as int) =~= text::views(sorted@));
    }
    let ghost base = material@;
    if let Some(f) = freshness {
        material.push_str("|freshness=");
        material.push_str(word_of(f));
        assert(material@ =~= base + ("|freshness="@ + freshness_word(*f)));
    } else {
        assert(material@ =~= base + Seq::empty());
    }
    material
}

fn digest_of(material: &str) -> (r: String)
    ensures
        r@ == key_of(material@),
        r@.len() == 64,
{
    let digest = sha256_digest(material.as_bytes());
    proof {
        lemma_hex_len(digest@);
    }
    hex_of(&digest)
}

proof fn lemma_hex_len(bytes: Seq<u8>)
    ensures
        hex(bytes).len() == 2 * bytes.len(),
    decreases bytes.len(),
{
    if bytes.len() > 0 {
        lemma_hex_len(bytes.drop_last());
    }
}

/// Compute a deterministic SHA-256 cache key from the normalized search
/// parameters. The key is built from the query string, a sorted, pipe-joined
/// provider list, and an optional freshness filter. It knows neither language nor country, and
/// texts that hold a pipe character can share a key: [`request_cache_key`] is the key of a
/// search.
pub fn cache_key(query: &str, providers: &[String], freshness: Option<&Freshness>) -> (r: String)
    ensures
        r@ == key_of(
            key_material(
                query@,
                text::views(providers@),
                match freshness {
                    Some(f) => Some(*f),
                    None => None,
                },
            ),
        ),
        r@.len() == 64,
{
    digest_of(material_of(query, providers, freshness).as_str())
}

/// Puts a part with its length at the end of a text.
fn push_framed(material: &mut String, part: &str)
    ensures
        final(material)@ == old(material)@ + framed(part@),
{
    let length: usize = text::chars_of(part).len();
    let ghost before = material@;
    material.push_str(text::decimal_of(length as u64).as_str());
    material.push_str(":");
    material.push_str(part);
    assert(material@ =~= before + framed(part@));
}

/// Puts a part that may be missing at the end of a text.
fn push_option(material: &mut String, part: Option<&str>)
    ensures
        final(material)@ == old(material)@ + framed_option(
            match part {
                Some(v) => Some(v@),
                None => None,
            },
        ),
{
    let ghost before = material@;
    match part {
        Some(v) => {
            material.push_str("+");
            push_framed(material, v);
            assert(material@ =~= before + framed_option(Some(v@)));
        },
        None => {
            material.push_str("-");
        },
    }
}

/// Puts the number of names, and each of them with its length, at the end of a text.
fn push_names(material: &mut String, names: &Vec<String>)
    ensures
        final(material)@ == old(material)@ + (text::decimal(names@.len()) + ":"@ + framed_all(
            text::views(names@),
        )),
{
    let ghost before = material@;
    let ghost all = text::views(names@);
    let ghost head = text::decimal(names@.len()) + ":"@;
    material.push_str(text::decimal_of(names.len() as u64).as_str());
    material.push_str(":");
    let mut i: usize = 0;
    assert(all.skip(0) =~= all);
    assert(material@ + framed_all(all) =~= before + (head + framed_all(all)));
    while i < names.len()
        invariant
            i <= names@.len(),
            all == text::views(names@),
            material@ + framed_all(all.skip(i as int)) == before + (head + framed_all(all)),
        decreases names.len() - i,
    {
        proof {
            let rest = all.skip(i as int);
            assert(rest[0] == names@[i as int]@);
            assert(rest.drop_first() =~= all.skip(i + 1));
            assert(material@ + framed_all(rest) =~= (material@ + framed(rest[0])) + framed_all(
                all.skip(i + 1),
            ));
        }
        push_framed(material, names[i].as_str());
        i = i + 1;
    }
    assert(material@ + framed_all(all.skip(i as int)) =~= material@);
}

/// The word for a freshness filter.
fn word_of(freshness: &Freshness) -> (r: &'static str)
    ensures
        r@ == freshness_word(*freshness),
{
    match freshness {
        Freshness::Day => "day",
        Freshness::Week => "week",
        Freshness::Month => "month",
        Freshness::Year => "year",
    }
}

/// The cache key of a request that goes to the given providers. It is taken of a text that
/// tells all parameters apart, so that parameter variations are cached independently.
pub fn request_cache_key(request: &SearchRequest, providers: &[String]) -> (r: String)
    ensures
        r@ == key_of(request_material(*request, text::views(providers@))),
        r@.len() == 64,
{
    // Sort provider names so order does not affect the key.
    let sorted = text::sort_names(&strings_of(providers));
    proof {
        lemma_sorted_len(text::views(providers@));
        assert(text::views(providers@).len() == providers@.len());
        assert(text::views(sorted@).len() == sorted@.len());
    }
    let mut material = String::new();
    push_framed(&mut material, request.query.as_str());
    push_names(&mut material, &sorted);
    push_option(
        &mut material,
        match &request.freshness {
            Some(f) => Some(word_of(f)),
            None => None,
        },
    );
    push_option(
        &mut material,
        match &request.language {
            Some(language) => Some(language.as_str()),
            None => None,
        },
    );
    push_option(
        &mut material,
        match &request.country {
            Some(country) => Some(country.as_str()),
            None => None,
        },
    );
    assert(material@ =~= request_material(*request, text::views(providers@)));
    digest_of(material.as_str())
}

/// The stored form of a provider list: the names in ascending order between commas,
/// or `auto` for no names.
pub open spec fn list_text(providers: Seq<Seq<char>>) -> Seq<char> {
    if providers.len() == 0 {
        "auto"@
    } else {
        text::join_seq(text::sorted_names(providers), ","@)
    }
}

/// Build a stable, sorted, comma-separated provider list string for storage
/// in the `provider_list` column. An empty slice produces the string `"auto"`,
/// matching the convention for tier-based dispatch.
pub fn provider_list_string(providers: &[String]) -> (r: String)
    ensures
        r@ == list_text(text::views(providers@)),
{
    if providers.len() == 0 {
        "auto".to_owned()
    } else {
        text::join(&text::sort_names(&strings_of(providers)), ",")
    }
}

/// The order in which providers are named changes neither the key of a query nor
/// the stored list.
pub proof fn provider_order_does_not_matter(
    query: Seq<char>,
    freshness: Option<Freshness>,
    a: Seq<Seq<char>>,
    b: Seq<Seq<char>>,
)
    requires
        a.to_multiset() == b.to_multiset(),
    ensures
        key_of(key_material(query, a, freshness)) == key_of(key_material(query, b, freshness)),
        list_text(a) == list_text(b),
{
    lemma_sorted_alike(a, b);
}

/// The order in which providers are named changes nothing of the text to digest.
pub proof fn lemma_material_order(
    request: SearchRequest,
    a: Seq<Seq<char>>,
    b: Seq<Seq<char>>,
)
    requires
        a.to_multiset() == b.to_multiset(),
    ensures
        request_material(request, a) == request_material(request, b),
{
    lemma_sorted_alike(a, b);
}

proof fn lemma_sorted_alike(a: Seq<Seq<char>>, b: Seq<Seq<char>>)
    requires
        a.to_multiset() == b.to_multiset(),
    ensures
        text::sorted_names(a) == text::sorted_names(b),
        a.len() == b.len(),
{
    let le = |x: Seq<char>, y: Seq<char>| text::text_le(x, y);
    text::lemma_text_le_total();
    a.lemma_sort_by_ensures(le);
    b.lemma_sort_by_ensures(le);
    vstd::seq_lib::lemma_sorted_unique(text::sorted_names(a), text::sorted_names(b), le);
    vstd::seq_lib::to_multiset_len(a);
    vstd::seq_lib::to_multiset_len(b);
}

proof fn lemma_sorted_len(names: Seq<Seq<char>>)
    ensures
        text::sorted_names(names).len() == names.len(),
        text::sorted_names(names).to_multiset() == names.to_multiset(),
{
    let le = |x: Seq<char>, y: Seq<char>| text::text_le(x, y);
    text::lemma_text_le_total();
    names.lemma_sort_by_ensures(le);
    vstd::seq_lib::to_multiset_len(names);
    vstd::seq_lib::to_multiset_len(text::sorted_names(names));
}

/// Parameter variations are cached independently: two requests have the same text to digest
/// exactly where they agree in query, freshness, language and country and go to the same
/// providers, whatever characters these hold. Where they do not agree, the digests are taken
/// of different bytes.
pub proof fn each_parameter_counts(
    a: SearchRequest,
    a_providers: Seq<Seq<char>>,
    b: SearchRequest,
    b_providers: Seq<Seq<char>>,
)
    ensures
        ({
            let same = a.query@ == b.query@ && a_providers.to_multiset()
                == b_providers.to_multiset() && a.freshness == b.freshness && option_view(
                a.language,
            ) == option_view(b.language) && option_view(a.country) == option_view(b.country);
            let a_text = request_material(a, a_providers);
            let b_text = request_material(b, b_providers);
            &&& same <==> a_text == b_text
            &&& same <==> vstd::utf8::encode_utf8(a_text) == vstd::utf8::encode_utf8(b_text)
        }),
{
    let a_text = request_material(a, a_providers);
    let b_text = request_material(b, b_providers);
    vstd::utf8::encode_utf8_decode_utf8(a_text);
    vstd::utf8::encode_utf8_decode_utf8(b_text);
    if a_providers.to_multiset() == b_providers.to_multiset() {
        lemma_sorted_alike(a_providers, b_providers);
    }
    if a_text == b_text {
        let a_names = text::sorted_names(a_providers);
        let b_names = text::sorted_names(b_providers);
        let a_country = framed_option(option_view(a.country));
        let b_country = framed_option(option_view(b.country));
        let a_language = framed_option(option_view(a.language)) + a_country;
        let b_language = framed_option(option_view(b.language)) + b_country;
        let a_freshness = framed_option(freshness_view(a.freshness)) + a_language;
        let b_freshness = framed_option(freshness_view(b.freshness)) + b_language;
        let a_list = framed_all(a_names) + a_freshness;
        let b_list = framed_all(b_names) + b_freshness;
        lemma_sorted_len(a_providers);
        lemma_sorted_len(b_providers);
        lemma_framed(
            a.query@,
            text::decimal(a_providers.len()) + ":"@ + a_list,
            b.query@,
            text::decimal(b_providers.len()) + ":"@ + b_list,
        );
        lemma_counted(a_providers.len(), a_list, b_providers.len(), b_list);
        lemma_framed_all(a_names, a_freshness, b_names, b_freshness);
        lemma_framed_option(
            freshness_view(a.freshness),
            a_language,
            freshness_view(b.freshness),
            b_language,
        );
        lemma_freshness_words(a.freshness, b.freshness);
        lemma_framed_option(option_view(a.language), a_country, option_view(b.language), b_country);
        assert(a_country =~= a_country + Seq::empty());
        assert(b_country =~= b_country + Seq::empty());
        lemma_framed_option(
            option_view(a.country),
            Seq::empty(),
            option_view(b.country),
            Seq::empty(),
        );
    }
}

/// A number before a colon can be told from what follows.
proof fn lemma_counted(m: nat, x: Seq<char>, n: nat, y: Seq<char>)
    requires
        text::decimal(m) + ":"@ + x == text::decimal(n) + ":"@ + y,
    ensures
        m == n,
        x == y,
{
    reveal_strlit(":");
    let dm = text::decimal(m);
    let dn = text::decimal(n);
    let s = dm + ":"@ + x;
    let t = dn + ":"@ + y;
    text::lemma_decimal(m);
    text::lemma_decimal(n);
    assert(s[dm.len() as int] == ':');
    assert(t[dn.len() as int] == ':');
    if dm.len() < dn.len() {
        assert(text::is_digit(dn[dm.len() as int]));
        assert(t[dm.len() as int] == dn[dm.len() as int]);
    }
    if dn.len() < dm.len() {
        assert(text::is_digit(dm[dn.len() as int]));
        assert(s[dn.len() as int] == dm[dn.len() as int]);
    }
    assert(dm =~= s.take(dm.len() as int));
    assert(dn =~= t.take(dn.len() as int));
    assert(x =~= s.skip(dm.len() as int + 1));
    assert(y =~= t.skip(dn.len() as int + 1));
}

/// A part with its length in front can be told from what follows.
proof fn lemma_framed(a: Seq<char>, x: Seq<char>, b: Seq<char>, y: Seq<char>)
    requires
        framed(a) + x == framed(b) + y,
    ensures
        a == b,
        x == y,
{
    assert(framed(a) + x =~= text::decimal(a.len()) + ":"@ + (a + x));
    assert(framed(b) + y =~= text::decimal(b.len()) + ":"@ + (b + y));
    lemma_counted(a.len(), a + x, b.len(), b + y);
    assert(a =~= (a + x).take(a.len() as int));
    assert(b =~= (b + y).take(b.len() as int));
    assert(x =~= (a + x).skip(a.len() as int));
    assert(y =~= (b + y).skip(b.len() as int));
}

/// As many parts with their lengths in front can be told from what follows.
proof fn lemma_framed_all(a: Seq<Seq<char>>, x: Seq<char>, b: Seq<Seq<char>>, y: Seq<char>)
    requires
        a.len() == b.len(),
        framed_all(a) + x == framed_all(b) + y,
    ensures
        a == b,
        x == y,
    decreases a.len(),
{
    if a.len() == 0 {
        assert(a =~= b);
        assert(framed_all(a) + x =~= x);
        assert(framed_all(b) + y =~= y);
    } else {
        let ra = a.drop_first();
        let rb = b.drop_first();
        assert(framed_all(a) + x =~= framed(a[0]) + (framed_all(ra) + x));
        assert(framed_all(b) + y =~= framed(b[0]) + (framed_all(rb) + y));
        lemma_framed(a[0], framed_all(ra) + x, b[0], framed_all(rb) + y);
        lemma_framed_all(ra, x, rb, y);
        assert(a =~= seq![a[0]] + ra);
        assert(b =~= seq![b[0]] + rb);
    }
}

/// A part that may be missing can be told from what follows.
proof fn lemma_framed_option(
    a: Option<Seq<char>>,
    x: Seq<char>,
    b: Option<Seq<char>>,
    y: Seq<char>,
)
    requires
        framed_option(a) + x == framed_option(b) + y,
    ensures
        a == b,
        x == y,
{
    reveal_strlit("+");
    reveal_strlit("-");
    let s = framed_option(a) + x;
    let t = framed_option(b) + y;
    assert(s[0] == (if a is Some {
        '+'
    } else {
        '-'
    }));
    assert(t[0] == (if b is Some {
        '+'
    } else {
        '-'
    }));
    if let (Some(u), Some(v)) = (a, b) {
        assert(s.skip(1) =~= framed(u) + x);
        assert(t.skip(1) =~= framed(v) + y);
        lemma_framed(u, x, v, y);
    } else {
        assert(s.skip(1) =~= x);
        assert(t.skip(1) =~= y);
    }
}

/// Freshness filters with the same word are the same.
proof fn lemma_freshness_words(x: Option<Freshness>, y: Option<Freshness>)
    requires
        freshness_view(x) == freshness_view(y),
    ensures
        x == y,
{
    reveal_strlit("day");
    reveal_strlit("week");
    reveal_strlit("month");
    reveal_strlit("year");
    assert("day"@[0] == 'd' && "week"@[0] == 'w' && "month"@[0] == 'm' && "year"@[0] == 'y');
}

/// A query, and a filter, that differ from another lead to a different text to digest, whatever
/// the providers are; and without providers and filter the text is the query.
pub proof fn queries_and_filters_count(
    query: Seq<char>,
    other: Seq<char>,
    providers: Seq<Seq<char>>,
    freshness: Option<Freshness>,
    other_freshness: Option<Freshness>,
)
    ensures
        query != other ==> key_material(query, providers, freshness) != key_material(
            other,
            providers,
            freshness,
        ),
        freshness != other_freshness ==> key_material(query, providers, freshness) != key_material(
            query,
            providers,
            other_freshness,
        ),
        key_material(query, Seq::empty(), None) == query,
{
    let names = piped(text::sorted_names(providers));
    let part = freshness_part(freshness);
    let a = key_material(query, providers, freshness);
    let b = key_material(other, providers, freshness);
    let c = key_material(query, providers, other_freshness);
    if a == b {
        let n = names.len() + part.len();
        assert(a.len() == query.len() + n && b.len() == other.len() + n);
        assert(query =~= a.take(query.len() as int));
        assert(other =~= b.take(other.len() as int));
    }
    if a == c {
        let other_part = freshness_part(other_freshness);
        let n = (query.len() + names.len()) as int;
        assert(part =~= a.skip(n));
        assert(other_part =~= c.skip(n));
        lemma_freshness_parts(freshness, other_freshness);
    }
    lemma_sorted_len(Seq::empty());
    assert(piped(text::sorted_names(Seq::empty())) =~= Seq::empty());
    assert(key_material(query, Seq::empty(), None) =~= query);
}

proof fn lemma_freshness_parts(a: Option<Freshness>, b: Option<Freshness>)
    requires
        freshness_part(a) == freshness_part(b),
    ensures
        a == b,
{
    reveal_strlit("|freshness=");
    let label = "|freshness="@;
    if let (Some(x), Some(y)) = (a, b) {
        assert(freshness_word(x) =~= freshness_part(a).skip(label.len() as int));
        assert(freshness_word(y) =~= freshness_part(b).skip(label.len() as int));
        lemma_freshness_words(a, b);
    } else {
        assert(label.len() == 11);
        assert(a is Some ==> freshness_part(a).len() >= 11);
        assert(b is Some ==> freshness_part(b).len() >= 11);
        assert(a is None ==> freshness_part(a).len() == 0);
        assert(b is None ==> freshness_part(b).len() == 0);
    }
}

/// A key is 64 characters of the lowercase hexadecimal digits, two for each byte of the digest,
/// from which the byte can be read back.
pub proof fn keys_are_hexadecimal(bytes: Seq<u8>, i: int)
    requires
        0 <= i < bytes.len(),
    ensures
        hex(bytes).len() == 2 * bytes.len(),
        ({
            let high = hex(bytes)[2 * i];
            let low = hex(bytes)[2 * i + 1];
            &&& '0' <= high <= '9' || 'a' <= high <= 'f'
            &&& '0' <= low <= '9' || 'a' <= low <= 'f'
            &&& bytes[i] as int == 16 * (if high <= '9' {
                high as u32 - 48
            } else {
                high as u32 - 87
            }) + (if low <= '9' {
                low as u32 - 48
            } else {
                low as u32 - 87
            })
        }),
    decreases bytes.len(),
{
    lemma_hex_len(bytes);
    lemma_hex_len(bytes.drop_last());
    if i < bytes.len() - 1 {
        keys_are_hexadecimal(bytes.drop_last(), i);
        assert(hex(bytes)[2 * i] == hex(bytes.drop_last())[2 * i]);
        assert(hex(bytes)[2 * i + 1] == hex(bytes.drop_last())[2 * i + 1]);
    } else {
        let b = bytes.last() as int;
        assert(hex(bytes)[2 * i] == hex_digit(b / 16));
        assert(hex(bytes)[2 * i + 1] == hex_digit(b % 16));
        assert(0 <= b / 16 < 16 && 0 <= b % 16 < 16);
        lemma_hex_digit(b / 16);
        lemma_hex_digit(b % 16);
    }
}

proof fn lemma_hex_digit(n: int)
    requires
        0 <= n < 16,
    ensures
        n < 10 ==> hex_digit(n) as u32 == 48 + n,
        n >= 10 ==> hex_digit(n) as u32 == 87 + n,
{
}

/// The stored list of providers is `auto` for none, and the name itself for one.
pub proof fn stored_lists_name_the_providers(name: Seq<char>)
    ensures
        list_text(Seq::empty()) == "auto"@,
        list_text(seq![name]) == name,
{
    let one = seq![name];
    lemma_sorted_len(one);
    let sorted = text::sorted_names(one);
    assert(sorted.contains(sorted[0]));
    vstd::seq_lib::to_multiset_contains(sorted, sorted[0]);
    vstd::seq_lib::to_multiset_contains(one, sorted[0]);
    assert(one.contains(sorted[0]));
    assert(sorted[0] == name);
}

/// Different providers lead to a different text to digest, as long as no name holds a pipe
/// character.
pub proof fn providers_count(
    query: Seq<char>,
    freshness: Option<Freshness>,
    a: Seq<Seq<char>>,
    b: Seq<Seq<char>>,
)
    requires
        a.to_multiset() != b.to_multiset(),
        forall|i: int| 0 <= i < a.len() ==> !(#[trigger] a[i]).contains('|'),
        forall|i: int| 0 <= i < b.len() ==> !(#[trigger] b[i]).contains('|'),
    ensures
        key_material(query, a, freshness) != key_material(query, b, freshness),
{
    let x = text::sorted_names(a);
    let y = text::sorted_names(b);
    let part = freshness_part(freshness);
    let s = key_material(query, a, freshness);
    let t = key_material(query, b, freshness);
    lemma_sorted_len(a);
    lemma_sorted_len(b);
    lemma_sorted_lacks_pipes(a);
    lemma_sorted_lacks_pipes(b);
    if s == t {
        let n = query.len() as int;
        assert(s.len() == query.len() + piped(x).len() + part.len());
        assert(t.len() == query.len() + piped(y).len() + part.len());
        assert(piped(x) =~= s.subrange(n, n + piped(x).len()));
        assert(piped(y) =~= t.subrange(n, n + piped(y).len()));
        lemma_piped(x);
        lemma_piped(y);
        if x.len() > 0 && y.len() > 0 {
            assert(text::join_seq(x, seq!['|']) =~= piped(x).skip(1));
            assert(text::join_seq(y, seq!['|']) =~= piped(y).skip(1));
            crate::search::merge::lemma_split_joined(x, '|');
            crate::search::merge::lemma_split_joined(y, '|');
        } else {
            assert(x =~= y);
        }
    }
}

proof fn lemma_sorted_lacks_pipes(names: Seq<Seq<char>>)
    requires
        forall|i: int| 0 <= i < names.len() ==> !(#[trigger] names[i]).contains('|'),
    ensures
        forall|i: int|
            0 <= i < text::sorted_names(names).len() ==> !(#[trigger] text::sorted_names(
                names,
            )[i]).contains('|'),
{
    let sorted = text::sorted_names(names);
    lemma_sorted_len(names);
    assert forall|i: int| 0 <= i < sorted.len() implies !(#[trigger] sorted[i]).contains('|') by {
        assert(sorted.contains(sorted[i]));
        vstd::seq_lib::to_multiset_contains(sorted, sorted[i]);
        vstd::seq_lib::to_multiset_contains(names, sorted[i]);
        let k = choose|k: int| 0 <= k < names.len() && names[k] == sorted[i];
        assert(!names[k].contains('|'));
    }
}

proof fn lemma_piped(names: Seq<Seq<char>>)
    ensures
        names.len() > 0 ==> piped(names) == seq!['|'] + text::join_seq(names, seq!['|']),
        names.len() == 0 ==> piped(names).len() == 0,
    decreases names.len(),
{
    reveal_strlit("|");
    assert("|"@ =~= seq!['|']);
    if names.len() > 0 {
        lemma_piped(names.drop_last());
        assert(piped(names) =~= seq!['|'] + text::join_seq(names, seq!['|']));
    }
}

/// A key is taken of all bytes of its text: it is the digest of its UTF-8 form, in hexadecimal, so
/// that two keys are alike only where the digests of the two texts are.
pub proof fn keys_are_digests_of_the_whole_text(a: Seq<char>, b: Seq<char>)
    ensures
        key_of(a) == hex(sha256(vstd::utf8::encode_utf8(a))),
        key_of(a) == key_of(b) ==> sha256(vstd::utf8::encode_utf8(a)) == sha256(
            vstd::utf8::encode_utf8(b),
        ),
{
    if key_of(a) == key_of(b) {
        lemma_hex_injective(
            sha256(vstd::utf8::encode_utf8(a)),
            sha256(vstd::utf8::encode_utf8(b)),
        );
    }
}

proof fn lemma_hex_injective(x: Seq<u8>, y: Seq<u8>)
    requires
        hex(x) == hex(y),
    ensures
        x == y,
{
    lemma_hex_len(x);
    lemma_hex_len(y);
    assert forall|i: int| 0 <= i < x.len() implies x[i] == y[i] by {
        keys_are_hexadecimal(x, i);
        keys_are_hexadecimal(y, i);
    }
    assert(x =~= y);
}

} // verus!
