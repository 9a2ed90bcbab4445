//! The proxy-list file: one `host:port` per line.
//!
//! Reading splits the text at line feeds, trims each line, drops blank lines
//! and keeps only the first occurrence of an address. Writing joins the
//! addresses with line feeds. Reading what was written gives the addresses
//! back (`lemma_read_back`).
use vstd::prelude::*;
use vstd::std_specs::iter::IteratorSpec;

verus! {

/// Unicode `White_Space`: the characters that `char::is_whitespace` accepts.
pub open spec fn is_space(c: char) -> bool {
    let u = c as u32;
    ||| 0x09 <= u <= 0x0d
    ||| u == 0x20
    ||| u == 0x85
    ||| u == 0xa0
    ||| u == 0x1680
    ||| 0x2000 <= u <= 0x200a
    ||| u == 0x2028
    ||| u == 0x2029
    ||| u == 0x202f
    ||| u == 0x205f
    ||| u == 0x3000
}

/// `s` without its leading white space.
pub open spec fn trim_start(s: Seq<char>) -> Seq<char>
    decreases s.len(),
{
    if s.len() > 0 && is_space(s[0]) {
        trim_start(s.drop_first())
    } else {
        s
    }
}

/// `s` without its trailing white space.
pub open spec fn trim_end(s: Seq<char>) -> Seq<char>
    decreases s.len(),
{
    if s.len() > 0 && is_space(s.last()) {
        trim_end(s.drop_last())
    } else {
        s
    }
}

/// `s` without leading and trailing white space, as `str::trim` gives it.
pub open spec fn trim(s: Seq<char>) -> Seq<char> {
    trim_end(trim_start(s))
}

/// Position of the first line feed of `t`, or its length when it has none.
pub open spec fn line_break(t: Seq<char>) -> nat
    decreases t.len(),
{
    if t.len() == 0 || t[0] == '\n' {
        0
    } else {
        1 + line_break(t.drop_first())
    }
}

/// The pieces of `t` between line feeds; a text without line feed is one piece.
pub open spec fn split_lines(t: Seq<char>) -> Seq<Seq<char>>
    decreases t.len(),
{
    let k = line_break(t);
    if k < t.len() {
        seq![t.subrange(0, k as int)] + split_lines(t.subrange(k as int + 1, t.len() as int))
    } else {
        seq![t]
    }
}

/// The trimmed, non-blank lines, each kept at its first occurrence only.
pub open spec fn entries_of_lines(lines: Seq<Seq<char>>) -> Seq<Seq<char>>
    decreases lines.len(),
{
    if lines.len() == 0 {
        Seq::empty()
    } else {
        let prev = entries_of_lines(lines.drop_last());
        let l = trim(lines.last());
        if l.len() == 0 || prev.contains(l) {
            prev
        } else {
            prev.push(l)
        }
    }
}

/// The addresses that a proxy-list text holds, in file order.
pub open spec fn proxy_list(t: Seq<char>) -> Seq<Seq<char>> {
    entries_of_lines(split_lines(t))
}

/// The lines joined with line feeds, without a final one.
pub open spec fn join_lines(ls: Seq<Seq<char>>) -> Seq<char>
    decreases ls.len(),
{
    if ls.len() == 0 {
        Seq::empty()
    } else if ls.len() == 1 {
        ls[0]
    } else {
        join_lines(ls.drop_last()) + seq!['\n'] + ls.last()
    }
}

/// An address as the list can hold it: not blank, no white space at either
/// end, no line feed.
pub open spec fn is_clean_address(a: Seq<char>) -> bool {
    &&& a.len() > 0
    &&& !is_space(a[0])
    &&& !is_space(a.last())
    &&& !a.contains('\n')
}

/// Distinct clean addresses.
pub open spec fn is_clean_list(ls: Seq<Seq<char>>) -> bool {
    &&& ls.no_duplicates()
    &&& forall|i: int| 0 <= i < ls.len() ==> #[trigger] is_clean_address(ls[i])
}

/// The text of each string.
pub open spec fn texts(v: Seq<String>) -> Seq<Seq<char>> {
    v.map_values(|s: String| s@)
}

/// Relies on `char::is_whitespace`: true exactly for the Unicode `White_Space`
/// characters.
#[verifier::external_body]
fn is_whitespace(c: char) -> (r: bool)
    ensures
        r == is_space(c),
{
    c.is_whitespace()
}

/// Relies on `String::push`: appends one character.
#[verifier::external_body]
pub(crate) fn push_char(s: &mut String, c: char)
    ensures
        final(s)@ == old(s)@.push(c),
{
    s.push(c)
}

proof fn lemma_line_break(t: Seq<char>)
    ensures
        line_break(t) <= t.len(),
        forall|j: int| 0 <= j < line_break(t) ==> t[j] != '\n',
        line_break(t) < t.len() ==> t[line_break(t) as int] == '\n',
    decreases t.len(),
{
    if t.len() > 0 && t[0] != '\n' {
        lemma_line_break(t.drop_first());
        assert forall|j: int| 0 <= j < line_break(t) implies t[j] != '\n' by {
            if j > 0 {
                assert(t[j] == t.drop_first()[j - 1]);
            }
        }
    }
}

proof fn lemma_trim_start_window(s: Seq<char>, a: int)
    requires
        0 <= a <= s.len(),
        forall|j: int| 0 <= j < a ==> is_space(s[j]),
        a == s.len() || !is_space(s[a]),
    ensures
        trim_start(s) == s.subrange(a, s.len() as int),
    decreases a,
{
    if a == 0 {
        assert(s.subrange(0, s.len() as int) =~= s);
    } else {
        let t = s.drop_first();
        assert forall|j: int| 0 <= j < a - 1 implies is_space(t[j]) by {
            assert(t[j] == s[j + 1]);
        }
        lemma_trim_start_window(t, a - 1);
        assert(t.subrange(a - 1, t.len() as int) =~= s.subrange(a, s.len() as int));
    }
}

proof fn lemma_trim_end_window(s: Seq<char>, b: int)
    requires
        0 <= b <= s.len(),
        forall|j: int| b <= j < s.len() ==> is_space(s[j]),
        b == 0 || !is_space(s[b - 1]),
    ensures
        trim_end(s) == s.subrange(0, b),
    decreases s.len() - b,
{
    if b == s.len() {
        assert(s.subrange(0, b) =~= s);
    } else {
        let t = s.drop_last();
        lemma_trim_end_window(t, b);
        assert(t.subrange(0, b) =~= s.subrange(0, b));
    }
}

/// What `trim` keeps of `s` is the window between the outer non-space characters.
proof fn lemma_trim_window(s: Seq<char>, a: int, b: int)
    requires
        0 <= a <= b <= s.len(),
        forall|j: int| 0 <= j < a ==> is_space(s[j]),
        a == s.len() || !is_space(s[a]),
        forall|j: int| b <= j < s.len() ==> is_space(s[j]),
        b == a || !is_space(s[b - 1]),
    ensures
        trim(s) == s.subrange(a, b),
{
    lemma_trim_start_window(s, a);
    let u = s.subrange(a, s.len() as int);
    assert forall|j: int| b - a <= j < u.len() implies is_space(u[j]) by {
        assert(u[j] == s[a + j]);
    }
    lemma_trim_end_window(u, b - a);
    assert(u.subrange(0, b - a) =~= s.subrange(a, b));
}

/// A clean address is its own trimmed form.
proof fn lemma_trim_clean(a: Seq<char>)
    requires
        is_clean_address(a),
    ensures
        trim(a) == a,
{
    lemma_trim_window(a, 0, a.len() as int);
    assert(a.subrange(0, a.len() as int) =~= a);
}

proof fn lemma_split_single(t: Seq<char>)
    requires
        !t.contains('\n'),
    ensures
        split_lines(t) == seq![t],
{
    lemma_line_break(t);
    if line_break(t) < t.len() {
        assert(t[line_break(t) as int] == '\n');
    }
}

/// Splitting at a line feed splits the two sides apart.
proof fn lemma_split_concat(a: Seq<char>, b: Seq<char>)
    ensures
        split_lines(a + seq!['\n'] + b) == split_lines(a) + split_lines(b),
    decreases a.len(),
{
    let t = a + seq!['\n'] + b;
    lemma_line_break(t);
    lemma_line_break(a);
    let k = line_break(a);
    if k < a.len() {
        assert(t[k as int] == a[k as int]);
        if line_break(t) < k {
            assert(t[line_break(t) as int] == a[line_break(t) as int]);
        }
        assert(line_break(t) == k);
        let a2 = a.subrange(k as int + 1, a.len() as int);
        lemma_split_concat(a2, b);
        assert(t.subrange(0, k as int) =~= a.subrange(0, k as int));
        assert(t.subrange(k as int + 1, t.len() as int) =~= a2 + seq!['\n'] + b);
        assert(split_lines(t) =~= split_lines(a) + split_lines(b));
    } else {
        assert(t[a.len() as int] == '\n');
        if line_break(t) < a.len() {
            assert(t[line_break(t) as int] == a[line_break(t) as int]);
        }
        assert(line_break(t) == a.len());
        assert(t.subrange(0, a.len() as int) =~= a);
        assert(t.subrange(a.len() as int + 1, t.len() as int) =~= b);
        assert(split_lines(t) =~= split_lines(a) + split_lines(b));
    }
}

proof fn lemma_split_join(ls: Seq<Seq<char>>)
    requires
        ls.len() > 0,
        forall|i: int| 0 <= i < ls.len() ==> !(#[trigger] ls[i]).contains('\n'),
    ensures
        split_lines(join_lines(ls)) == ls,
    decreases ls.len(),
{
    if ls.len() == 1 {
        lemma_split_single(ls[0]);
        assert(seq![ls[0]] =~= ls);
    } else {
        let init = ls.drop_last();
        assert forall|i: int| 0 <= i < init.len() implies !(#[trigger] init[i]).contains('\n') by {
            assert(init[i] == ls[i]);
        }
        lemma_split_join(init);
        lemma_split_concat(join_lines(init), ls.last());
        lemma_split_single(ls.last());
        assert(init + seq![ls.last()] =~= ls);
    }
}

proof fn lemma_entries_of_clean(ls: Seq<Seq<char>>)
    requires
        is_clean_list(ls),
    ensures
        entries_of_lines(ls) == ls,
    decreases ls.len(),
{
    if ls.len() > 0 {
        let init = ls.drop_last();
        assert forall|i: int| 0 <= i < init.len() implies #[trigger] is_clean_address(init[i]) by {
            assert(init[i] == ls[i]);
        }
        lemma_entries_of_clean(init);
        assert(is_clean_address(ls[ls.len() - 1]));
        lemma_trim_clean(ls.last());
        if init.contains(ls.last()) {
            let j = choose|j: int| 0 <= j < init.len() && init[j] == ls.last();
            assert(ls[j] == ls[ls.len() - 1]);
        }
        assert(init.push(ls.last()) =~= ls);
    }
}

/// Reading back a written list of distinct clean addresses gives the same
/// addresses in the same order.
pub proof fn lemma_read_back(ls: Seq<Seq<char>>)
    requires
        is_clean_list(ls),
    ensures
        proxy_list(join_lines(ls)) == ls,
{
    if ls.len() == 0 {
        let e: Seq<char> = Seq::empty();
        lemma_split_single(e);
        assert(join_lines(ls) =~= e);
        assert(split_lines(e).drop_last() =~= Seq::<Seq<char>>::empty());
        assert(trim(e) =~= e);
        let one = seq![e];
        let none = Seq::<Seq<char>>::empty();
        assert(one.drop_last() =~= none);
        assert(entries_of_lines(none) == none);
        assert(trim(one.last()).len() == 0);
        assert(entries_of_lines(one) == none);
        assert(ls =~= Seq::<Seq<char>>::empty());
    } else {
        assert forall|i: int| 0 <= i < ls.len() implies !(#[trigger] ls[i]).contains('\n') by {
            assert(is_clean_address(ls[i]));
        }
        lemma_split_join(ls);
        lemma_entries_of_clean(ls);
    }
}

/// Every address that reading a text yields is clean, and none repeats.
pub proof fn lemma_proxy_list_clean(t: Seq<char>)
    ensures
        is_clean_list(proxy_list(t)),
{
    lemma_split_clean_pieces(t);
    lemma_entries_clean(split_lines(t));
}

proof fn lemma_split_clean_pieces(t: Seq<char>)
    ensures
        forall|i: int|
            0 <= i < split_lines(t).len() ==> !(#[trigger] split_lines(t)[i]).contains('\n'),
    decreases t.len(),
{
    lemma_line_break(t);
    let k = line_break(t);
    if k < t.len() {
        let rest = t.subrange(k as int + 1, t.len() as int);
        lemma_split_clean_pieces(rest);
        let first = t.subrange(0, k as int);
        assert forall|i: int|
            0 <= i < split_lines(t).len() implies !(#[trigger] split_lines(t)[i]).contains(
            '\n',
        ) by {
            if i == 0 {
                if first.contains('\n') {
                    let j = choose|j: int| 0 <= j < first.len() && first[j] == '\n';
                    assert(t[j] == '\n');
                }
            } else {
                assert(split_lines(t)[i] == split_lines(rest)[i - 1]);
            }
        }
    } else {
        assert forall|i: int|
            0 <= i < split_lines(t).len() implies !(#[trigger] split_lines(t)[i]).contains(
            '\n',
        ) by {
            if t.contains('\n') {
                let j = choose|j: int| 0 <= j < t.len() && t[j] == '\n';
                assert(t[j] != '\n');
            }
        }
    }
}

/// The end of the run of white space that starts at `i`.
proof fn leading_spaces(s: Seq<char>, i: int) -> (a: int)
    requires
        0 <= i <= s.len(),
        forall|j: int| 0 <= j < i ==> is_space(s[j]),
    ensures
        i <= a <= s.len(),
        forall|j: int| 0 <= j < a ==> is_space(s[j]),
        a == s.len() || !is_space(s[a]),
    decreases s.len() - i,
{
    if i < s.len() && is_space(s[i]) {
        leading_spaces(s, i + 1)
    } else {
        i
    }
}

/// The start of the run of white space that ends at `i`, not before `a`.
proof fn trailing_spaces(s: Seq<char>, a: int, i: int) -> (b: int)
    requires
        0 <= a <= i <= s.len(),
        forall|j: int| i <= j < s.len() ==> is_space(s[j]),
    ensures
        a <= b <= i,
        forall|j: int| b <= j < s.len() ==> is_space(s[j]),
        b == a || !is_space(s[b - 1]),
    decreases i - a,
{
    if i > a && is_space(s[i - 1]) {
        trailing_spaces(s, a, i - 1)
    } else {
        i
    }
}

/// Trimming a line without line feed gives a clean address or nothing.
proof fn lemma_trim_is_clean(s: Seq<char>)
    requires
        !s.contains('\n'),
    ensures
        trim(s).len() > 0 ==> is_clean_address(trim(s)),
{
    let a = leading_spaces(s, 0);
    let b = trailing_spaces(s, a, s.len() as int);
    lemma_trim_window(s, a, b);
    let r = s.subrange(a, b);
    if r.len() > 0 {
        assert(r[0] == s[a]);
        assert(r.last() == s[b - 1]);
        if r.contains('\n') {
            let j = choose|j: int| 0 <= j < r.len() && r[j] == '\n';
            assert(s[a + j] == '\n');
        }
    }
}

proof fn lemma_entries_clean(lines: Seq<Seq<char>>)
    requires
        forall|i: int| 0 <= i < lines.len() ==> !(#[trigger] lines[i]).contains('\n'),
    ensures
        is_clean_list(entries_of_lines(lines)),
    decreases lines.len(),
{
    if lines.len() > 0 {
        let init = lines.drop_last();
        assert forall|i: int| 0 <= i < init.len() implies !(#[trigger] init[i]).contains('\n') by {
            assert(init[i] == lines[i]);
        }
        lemma_entries_clean(init);
        let prev = entries_of_lines(init);
        let l = trim(lines.last());
        assert(!lines[lines.len() - 1].contains('\n'));
        lemma_trim_is_clean(lines.last());
        if !(l.len() == 0 || prev.contains(l)) {
            let next = prev.push(l);
            assert forall|i: int| 0 <= i < next.len() implies #[trigger] is_clean_address(
                next[i],
            ) by {
                if i < prev.len() {
                    assert(next[i] == prev[i]);
                }
            }
            assert forall|i: int, j: int|
                0 <= i < next.len() && 0 <= j < next.len() && i != j implies next[i]
                != next[j] by {
                if i < prev.len() && j < prev.len() {
                    assert(next[i] == prev[i] && next[j] == prev[j]);
                } else if i < prev.len() {
                    assert(next[i] == prev[i]);
                } else if j < prev.len() {
                    assert(next[j] == prev[j]);
                }
            }
        }
    }
}

/// The characters of `s`, one by one.
fn chars_of(s: &str) -> (r: Vec<char>)
    ensures
        r@ == s@,
{
    let mut it = s.chars();
    let mut out: Vec<char> = Vec::new();
    loop
        invariant
            out@ + it.remaining() == s@,
        decreases s@.len() - out@.len(),
    {
        match it.next() {
            Some(c) => {
                out.push(c);
            },
            None => {
                assert(out@ + it.remaining() =~= out@);
                return out;
            },
        }
    }
}

pub(crate) fn contains_text(v: &Vec<String>, s: &String) -> (r: bool)
    ensures
        r == texts(v@).contains(s@),
{
    let mut i: usize = 0;
    while i < v.len()
        invariant
            i <= v.len(),
            forall|j: int| 0 <= j < i ==> v@[j]@ != s@,
        decreases v.len() - i,
    {
        if v[i] == *s {
            assert(texts(v@)[i as int] == s@);
            return true;
        }
        i += 1;
    }
    proof {
        if texts(v@).contains(s@) {
            let j = choose|j: int| 0 <= j < texts(v@).len() && texts(v@)[j] == s@;
            assert(v@[j]@ == s@);
        }
    }
    false
}

/// The position of the first line feed at or after `start`, or the length.
fn line_end(cs: &Vec<char>, start: usize) -> (k: usize)
    requires
        start <= cs.len(),
    ensures
        start <= k <= cs.len(),
        k as int - start == line_break(cs@.subrange(start as int, cs.len() as int)),
{
    let n = cs.len();
    let mut k = start;
    while k < n && cs[k] != '\n'
        invariant
            start <= k <= n,
            n == cs.len(),
            forall|j: int| start <= j < k ==> cs@[j] != '\n',
        decreases n - k,
    {
        k += 1;
    }
    proof {
        let t = cs@.subrange(start as int, n as int);
        lemma_line_break(t);
        let lb = line_break(t) as int;
        if lb < k - start {
            assert(t[lb] == cs@[start + lb]);
        }
        if k < n && lb > k - start {
            assert(t[k - start] == cs@[k as int]);
        }
    }
    k
}

/// The bounds of the trimmed part of the characters from `start` to `k`.
fn trimmed_window(cs: &Vec<char>, start: usize, k: usize) -> (r: (usize, usize))
    requires
        start <= k <= cs.len(),
    ensures
        start <= r.0 <= r.1 <= k,
        trim(cs@.subrange(start as int, k as int)) == cs@.subrange(r.0 as int, r.1 as int),
{
    let mut a = start;
    while a < k && is_whitespace(cs[a])
        invariant
            start <= a <= k,
            k <= cs.len(),
            forall|j: int| start <= j < a ==> is_space(cs@[j]),
        decreases k - a,
    {
        a += 1;
    }
    let mut b = k;
    while b > a && is_whitespace(cs[b - 1])
        invariant
            a <= b <= k,
            k <= cs.len(),
            forall|j: int| b <= j < k ==> is_space(cs@[j]),
        decreases b,
    {
        b -= 1;
    }
    proof {
        let line = cs@.subrange(start as int, k as int);
        assert forall|j: int| 0 <= j < a - start implies is_space(line[j]) by {
            assert(line[j] == cs@[start + j]);
        }
        assert forall|j: int| b - start <= j < line.len() implies is_space(line[j]) by {
            assert(line[j] == cs@[start + j]);
        }
        if a < k {
            assert(line[a - start] == cs@[a as int]);
        }
        if b > a {
            assert(line[b - start - 1] == cs@[b - 1]);
        }
        lemma_trim_window(line, a - start, b - start);
        assert(line.subrange(a - start, b - start) =~= cs@.subrange(a as int, b as int));
    }
    (a, b)
}

/// The characters from `a` to `b` as a string.
fn string_of(cs: &Vec<char>, a: usize, b: usize) -> (s: String)
    requires
        a <= b <= cs.len(),
    ensures
        s@ == cs@.subrange(a as int, b as int),
{
    let mut s = String::new();
    let mut i = a;
    while i < b
        invariant
            a <= i <= b,
            b <= cs.len(),
            s@ == cs@.subrange(a as int, i as int),
        decreases b - i,
    {
        push_char(&mut s, cs[i]);
        assert(cs@.subrange(a as int, i + 1) =~= cs@.subrange(a as int, i as int).push(
            cs@[i as int],
        ));
        i += 1;
    }
    s
}

/// The addresses of a proxy-list text: lines split at line feeds and trimmed,
/// blank lines dropped, each address kept at its first occurrence.
pub fn parse_proxy_list(text: &str) -> (r: Vec<String>)
    ensures
        texts(r@) == proxy_list(text@),
{
    let cs = chars_of(text);
    let n = cs.len();
    let mut out: Vec<String> = Vec::new();
    let mut start: usize = 0;
    let ghost mut done: Seq<Seq<char>> = Seq::empty();
    assert(cs@.subrange(0, n as int) =~= cs@);
    loop
        invariant
            cs@ == text@,
            n == cs.len(),
            start <= n,
            done + split_lines(cs@.subrange(start as int, n as int)) == split_lines(cs@),
            texts(out@) == entries_of_lines(done),
        decreases n - start,
    {
        let ghost t = cs@.subrange(start as int, n as int);
        let k = line_end(&cs, start);
        let ghost line = cs@.subrange(start as int, k as int);
        assert(t.subrange(0, k - start) =~= line);
        let (a, b) = trimmed_window(&cs, start, k);
        let s = string_of(&cs, a, b);
        let seen = contains_text(&out, &s);
        let ghost before = out@;
        if b > a && !seen {
            out.push(s);
            assert(texts(out@) =~= texts(before).push(trim(line)));
        }
        proof {
            let next = done.push(line);
            assert(next.drop_last() =~= done);
            done = next;
        }
        if k == n {
            proof {
                assert(split_lines(t) == seq![t]);
                assert(t =~= line);
                assert(done.drop_last() + split_lines(t) =~= done);
            }
            return out;
        }
        proof {
            let rest = cs@.subrange(k + 1, n as int);
            assert(t.subrange(k - start + 1, t.len() as int) =~= rest);
            assert(split_lines(t) == seq![line] + split_lines(rest));
            assert(done + split_lines(rest) =~= done.drop_last() + split_lines(t));
        }
        start = k + 1;
    }
}

/// The addresses joined with line feeds: the text the list file is rewritten to.
pub fn render_proxy_list(addresses: &Vec<String>) -> (r: String)
    ensures
        r@ == join_lines(texts(addresses@)),
{
    let mut out = String::new();
    let mut i: usize = 0;
    proof {
        reveal_strlit("\n");
    }
    while i < addresses.len()
        invariant
            i <= addresses.len(),
            out@ == join_lines(texts(addresses@).subrange(0, i as int)),
            "\n"@ == seq!['\n'],
        decreases addresses.len() - i,
    {
        let ghost before = texts(addresses@).subrange(0, i as int);
        if i > 0 {
            out.append("\n");
        }
        out.append(addresses[i].as_str());
        proof {
            let after = texts(addresses@).subrange(0, i + 1);
            assert(after.drop_last() =~= before);
            assert(after.last() == addresses@[i as int]@);
            if i == 0 {
                assert(out@ =~= after[0]);
            } else {
                assert(out@ =~= join_lines(before) + seq!['\n'] + after.last());
            }
        }
        i += 1;
    }
    assert(texts(addresses@).subrange(0, addresses.len() as int) =~= texts(addresses@));
    out
}

} // verus!
