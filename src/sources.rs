//! Candidate addresses from search services (FOFA, Quake, Hunter).
//!
//! The host program sends the queries and decodes the JSON answers into the
//! response types below; this module builds the query URLs, turns answers
//! into `host:port` addresses and merges the sources into one sorted list
//! without repeats.
use vstd::prelude::*;
use vstd::utf8::encode_utf8;
use crate::config::{FofaConfig, HunterConfig};
use crate::proxy_list::{texts, push_char, contains_text};

verus! {

/// A FOFA search answer: an error flag and result rows, whose first column
/// is `host:port`.
#[derive(Debug)]
pub struct FofaResponse {
    pub error: bool,
    pub results: Vec<Vec<String>>,
}

/// A Quake search answer: a status code (0 for success), a message, and the
/// services found.
#[derive(Debug)]
pub struct QuakeResponse {
    pub code: i32,
    pub message: String,
    pub data: Vec<QuakeItem>,
}

#[derive(Debug)]
pub struct QuakeItem {
    pub ip: String,
    pub port: u32,
}

/// One page of a Hunter search answer: a status code (200 for success), a
/// message, and the data.
#[derive(Debug)]
pub struct HunterResponse {
    pub code: u32,
    pub message: String,
    pub data: HunterData,
}

#[derive(Debug)]
pub struct HunterData {
    pub total: u64,
    pub arr: Vec<HunterItem>,
}

#[derive(Debug)]
pub struct HunterItem {
    pub ip: String,
    pub port: u32,
}

/// Padded standard-alphabet Base64 of the bytes.
pub uninterp spec fn base64_of(b: Seq<u8>) -> Seq<char>;

/// Relies on base64's `engine::general_purpose::STANDARD.encode`: the padded
/// Base64 text of the string's UTF-8 bytes. Its length computation cannot
/// overflow for a string, which holds at most `isize::MAX` bytes.
#[verifier::external_body]
fn base64_encode(s: &str) -> (r: String)
    ensures
        r@ == base64_of(encode_utf8(s@)),
{
    base64::Engine::encode(&base64::engine::general_purpose::STANDARD, s)
}

/// The decimal digit `d`.
pub open spec fn digit_char(d: nat) -> char {
    if d == 0 {
        '0'
    } else if d == 1 {
        '1'
    } else if d == 2 {
        '2'
    } else if d == 3 {
        '3'
    } else if d == 4 {
        '4'
    } else if d == 5 {
        '5'
    } else if d == 6 {
        '6'
    } else if d == 7 {
        '7'
    } else if d == 8 {
        '8'
    } else {
        '9'
    }
}

/// `n` written in decimal, without leading zeros.
pub open spec fn decimal(n: nat) -> Seq<char>
    decreases n,
{
    if n < 10 {
        seq![digit_char(n)]
    } else {
        decimal(n / 10).push(digit_char(n % 10))
    }
}

fn digit(d: u64) -> (c: char)
    requires
        d < 10,
    ensures
        c == digit_char(d as nat),
{
    if d == 0 {
        '0'
    } else if d == 1 {
        '1'
    } else if d == 2 {
        '2'
    } else if d == 3 {
        '3'
    } else if d == 4 {
        '4'
    } else if d == 5 {
        '5'
    } else if d == 6 {
        '6'
    } else if d == 7 {
        '7'
    } else if d == 8 {
        '8'
    } else {
        '9'
    }
}

/// Appends `n` in decimal.
fn push_decimal(s: &mut String, n: u64)
    ensures
        final(s)@ == old(s)@ + decimal(n as nat),
    decreases n,
{
    if n >= 10 {
        push_decimal(s, n / 10);
    }
    push_char(s, digit(n % 10));
    proof {
        if n >= 10 {
            assert(old(s)@ + decimal((n / 10) as nat) + seq![digit_char((n % 10) as nat)]
                =~= old(s)@ + decimal(n as nat));
        } else {
            assert(old(s)@.push(digit_char(n as nat)) =~= old(s)@ + decimal(n as nat));
        }
    }
}

/// `host:port`.
pub open spec fn endpoint_text(ip: Seq<char>, port: u32) -> Seq<char> {
    ip + ":"@ + decimal(port as nat)
}

/// The address `ip:port`.
pub fn endpoint(ip: &String, port: u32) -> (r: String)
    ensures
        r@ == endpoint_text(ip@, port),
{
    let mut s = ip.clone();
    s.append(":");
    push_decimal(&mut s, port as u64);
    s
}

/// The FOFA query URL for an already encoded query.
pub open spec fn fofa_url_text(cfg: FofaConfig, query: Seq<char>) -> Seq<char> {
    cfg.api_url@ + "?key="@ + cfg.fofa_key@ + "&qbase64="@ + query + "&size="@ + decimal(
        cfg.size as nat,
    )
}

/// The Hunter query URL of one page for an already encoded query.
pub open spec fn hunter_url_text(cfg: HunterConfig, query: Seq<char>, page: u64) -> Seq<char> {
    cfg.api_url@ + "?api-key="@ + cfg.hunter_key@ + "&search="@ + query + "&page="@ + decimal(
        page as nat,
    ) + "&page_size=100"@
}

/// The FOFA query URL, with the query already Base64-encoded.
pub fn fofa_query_url(cfg: &FofaConfig, query: &str) -> (r: String)
    ensures
        r@ == fofa_url_text(*cfg, query@),
{
    let mut s = cfg.api_url.clone();
    s.append("?key=");
    s.append(cfg.fofa_key.as_str());
    s.append("&qbase64=");
    s.append(query);
    s.append("&size=");
    push_decimal(&mut s, cfg.size);
    s
}

/// The FOFA query URL for the configured query.
pub fn fofa_url(cfg: &FofaConfig) -> (r: String)
    ensures
        r@ == fofa_url_text(*cfg, base64_of(encode_utf8(cfg.query_str@))),
{
    let query = base64_encode(cfg.query_str.as_str());
    fofa_query_url(cfg, query.as_str())
}

/// The Hunter query URL of one page, with the query already Base64-encoded.
pub fn hunter_query_url(cfg: &HunterConfig, query: &str, page: u64) -> (r: String)
    ensures
        r@ == hunter_url_text(*cfg, query@, page),
{
    let mut s = cfg.api_url.clone();
    s.append("?api-key=");
    s.append(cfg.hunter_key.as_str());
    s.append("&search=");
    s.append(query);
    s.append("&page=");
    push_decimal(&mut s, page);
    s.append("&page_size=100");
    s
}

/// The Hunter query URL of one page for the configured query.
pub fn hunter_url(cfg: &HunterConfig, page: u64) -> (r: String)
    ensures
        r@ == hunter_url_text(*cfg, base64_of(encode_utf8(cfg.query_str@)), page),
{
    let query = base64_encode(cfg.query_str.as_str());
    hunter_query_url(cfg, query.as_str(), page)
}

/// The first column of every row that has one.
pub open spec fn first_columns(rows: Seq<Vec<String>>) -> Seq<Seq<char>>
    decreases rows.len(),
{
    if rows.len() == 0 {
        Seq::empty()
    } else {
        let prev = first_columns(rows.drop_last());
        if rows.last()@.len() > 0 {
            prev.push(rows.last()@[0]@)
        } else {
            prev
        }
    }
}

/// The addresses of Quake services.
pub open spec fn quake_endpoints(items: Seq<QuakeItem>) -> Seq<Seq<char>> {
    items.map_values(|i: QuakeItem| endpoint_text(i.ip@, i.port))
}

/// The addresses of Hunter items.
pub open spec fn hunter_endpoints(items: Seq<HunterItem>) -> Seq<Seq<char>> {
    items.map_values(|i: HunterItem| endpoint_text(i.ip@, i.port))
}

/// The addresses of a FOFA answer; nothing when it reports an error.
pub fn fofa_addresses(resp: &FofaResponse) -> (r: Option<Vec<String>>)
    ensures
        r is None <==> resp.error,
        r matches Some(v) ==> texts(v@) == first_columns(resp.results@),
{
    if resp.error {
        return None;
    }
    let mut out: Vec<String> = Vec::new();
    let mut i: usize = 0;
    while i < resp.results.len()
        invariant
            i <= resp.results.len(),
            texts(out@) == first_columns(resp.results@.subrange(0, i as int)),
        decreases resp.results.len() - i,
    {
        let ghost before = out@;
        let ghost rows = resp.results@.subrange(0, i + 1);
        assert(rows.drop_last() =~= resp.results@.subrange(0, i as int));
        if resp.results[i].len() > 0 {
            out.push(resp.results[i][0].clone());
            assert(texts(out@) =~= texts(before).push(resp.results@[i as int]@[0]@));
        }
        i += 1;
    }
    assert(resp.results@.subrange(0, resp.results.len() as int) =~= resp.results@);
    Some(out)
}

/// The addresses of a Quake answer; its message when the code is not 0.
pub fn quake_addresses(resp: &QuakeResponse) -> (r: Result<Vec<String>, String>)
    ensures
        r is Err <==> resp.code != 0,
        r matches Err(m) ==> m@ == resp.message@,
        r matches Ok(v) ==> texts(v@) == quake_endpoints(resp.data@),
{
    if resp.code != 0 {
        return Err(resp.message.clone());
    }
    let mut out: Vec<String> = Vec::new();
    let mut i: usize = 0;
    while i < resp.data.len()
        invariant
            i <= resp.data.len(),
            out@.len() == i,
            texts(out@) == quake_endpoints(resp.data@.subrange(0, i as int)),
        decreases resp.data.len() - i,
    {
        let ghost before = out@;
        out.push(endpoint(&resp.data[i].ip, resp.data[i].port));
        proof {
            let sub = resp.data@.subrange(0, i + 1);
            assert forall|j: int| 0 <= j <= i implies texts(out@)[j] == quake_endpoints(sub)[j] by {
                if j < i {
                    assert(out@[j] == before[j]);
                    assert(sub[j] == resp.data@.subrange(0, i as int)[j]);
                    assert(texts(before)[j] == quake_endpoints(resp.data@.subrange(0, i as int))[j]);
                }
            }
            assert(texts(out@) =~= quake_endpoints(sub));
        }
        i += 1;
    }
    assert(resp.data@.subrange(0, resp.data.len() as int) =~= resp.data@);
    Ok(out)
}

/// The addresses of a Hunter page; nothing when the code is not 200.
pub fn hunter_addresses(resp: &HunterResponse) -> (r: Option<Vec<String>>)
    ensures
        r is None <==> resp.code != 200,
        r matches Some(v) ==> texts(v@) == hunter_endpoints(resp.data.arr@),
{
    if resp.code != 200 {
        return None;
    }
    let items = &resp.data.arr;
    let mut out: Vec<String> = Vec::new();
    let mut i: usize = 0;
    while i < items.len()
        invariant
            i <= items.len(),
            out@.len() == i,
            texts(out@) == hunter_endpoints(items@.subrange(0, i as int)),
        decreases items.len() - i,
    {
        let ghost before = out@;
        out.push(endpoint(&items[i].ip, items[i].port));
        proof {
            let sub = items@.subrange(0, i + 1);
            assert forall|j: int| 0 <= j <= i implies texts(out@)[j] == hunter_endpoints(sub)[j] by {
                if j < i {
                    assert(out@[j] == before[j]);
                    assert(sub[j] == items@.subrange(0, i as int)[j]);
                    assert(texts(before)[j] == hunter_endpoints(items@.subrange(0, i as int))[j]);
                }
            }
            assert(texts(out@) =~= hunter_endpoints(sub));
        }
        i += 1;
    }
    assert(items@.subrange(0, items.len() as int) =~= items@);
    Some(out)
}

/// `a` comes before `b` or equals it, byte by byte.
pub open spec fn bytes_le(a: Seq<u8>, b: Seq<u8>) -> bool
    decreases a.len(),
{
    if a.len() == 0 {
        true
    } else if b.len() == 0 {
        false
    } else if a[0] != b[0] {
        a[0] < b[0]
    } else {
        bytes_le(a.drop_first(), b.drop_first())
    }
}

/// The strings are in ascending order of their UTF-8 bytes.
pub open spec fn sorted_texts(s: Seq<Seq<char>>) -> bool {
    forall|i: int, j: int| 0 <= i < j < s.len() ==> bytes_le(encode_utf8(s[i]), encode_utf8(s[j]))
}

/// Relies on `slice::sort` for strings: the same strings, in ascending
/// order; strings compare lexicographically by their UTF-8 bytes.
#[verifier::external_body]
fn sort_strings(v: &mut Vec<String>)
    ensures
        texts(final(v)@).to_multiset() == texts(old(v)@).to_multiset(),
        sorted_texts(texts(final(v)@)),
{
    v.sort()
}

/// Each text at its first occurrence.
pub open spec fn first_occurrences(s: Seq<Seq<char>>) -> Seq<Seq<char>>
    decreases s.len(),
{
    if s.len() == 0 {
        s
    } else {
        let prev = first_occurrences(s.drop_last());
        if prev.contains(s.last()) {
            prev
        } else {
            prev.push(s.last())
        }
    }
}

proof fn lemma_first_occurrences(s: Seq<Seq<char>>)
    ensures
        first_occurrences(s).no_duplicates(),
        forall|x: Seq<char>| first_occurrences(s).contains(x) <==> s.contains(x),
    decreases s.len(),
{
    if s.len() > 0 {
        let init = s.drop_last();
        lemma_first_occurrences(init);
        let prev = first_occurrences(init);
        assert forall|x: Seq<char>| first_occurrences(s).contains(x) <==> s.contains(x) by {
            if s.contains(x) {
                let k = choose|k: int| 0 <= k < s.len() && s[k] == x;
                if k < s.len() - 1 {
                    assert(init[k] == x);
                }
            }
            if init.contains(x) {
                let k = choose|k: int| 0 <= k < init.len() && init[k] == x;
                assert(s[k] == x);
            }
            if !prev.contains(s.last()) {
                assert(prev.push(s.last())[prev.len() as int] == s.last());
                if prev.push(s.last()).contains(x) {
                    let k = choose|k: int| 0 <= k < prev.len() + 1 && prev.push(s.last())[k] == x;
                    if k < prev.len() {
                        assert(prev[k] == x);
                    }
                }
                if prev.contains(x) {
                    let k = choose|k: int| 0 <= k < prev.len() && prev[k] == x;
                    assert(prev.push(s.last())[k] == x);
                }
            }
        }
    }
}

/// All addresses of all sources, sorted by their bytes, each once.
pub fn merge_addresses(all: &Vec<String>) -> (r: Vec<String>)
    ensures
        texts(r@).no_duplicates(),
        forall|x: Seq<char>| texts(r@).contains(x) <==> texts(all@).contains(x),
        sorted_texts(texts(r@)),
{
    let mut out: Vec<String> = Vec::new();
    let mut i: usize = 0;
    while i < all.len()
        invariant
            i <= all.len(),
            texts(out@) == first_occurrences(texts(all@.subrange(0, i as int))),
        decreases all.len() - i,
    {
        let ghost before = out@;
        let ghost prefix = texts(all@.subrange(0, i + 1));
        assert(prefix.drop_last() =~= texts(all@.subrange(0, i as int)));
        assert(prefix.last() == all@[i as int]@);
        if !contains_text(&out, &all[i]) {
            out.push(all[i].clone());
            assert(texts(out@) =~= texts(before).push(all@[i as int]@));
        }
        i += 1;
    }
    assert(all@.subrange(0, all.len() as int) =~= all@);
    proof {
        lemma_first_occurrences(texts(all@));
    }
    let ghost unsorted = texts(out@);
    sort_strings(&mut out);
    proof {
        let sorted = texts(out@);
        unsorted.lemma_multiset_has_no_duplicates();
        unsorted.to_multiset_ensures();
        sorted.to_multiset_ensures();
        sorted.lemma_multiset_has_no_duplicates_conv();
        assert forall|x: Seq<char>| sorted.contains(x) <==> texts(all@).contains(x) by {
            assert(sorted.to_multiset().count(x) == unsorted.to_multiset().count(x));
        }
    }
    out
}

} // verus!
