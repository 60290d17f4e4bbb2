//! Detection of links (URLs, domains, IPv4 hosts and file paths) under a
//! column of a terminal line.
use vstd::prelude::*;
use crate::chars::{ascii_alnum, ascii_alpha, is_alnum, is_alpha, is_ws, lower, whitespace};
use crate::text::{
    all_alnum, all_ascii_alnum, all_ascii_digits, all_digits, chars_equal, contains_char,
    has_prefix, last_index, lemma_split_nonempty, lower_chars, lower_seq, parse_uint_ok,
    parses_uint, rfind, slice_of, split, split_by, starts_with, starts_with_lower, str_chars,
    string_of, trim_end_char, trim_end_matching, views, Sep,
};

verus! {

/// A link found in a line: the columns it spans (inclusive) and what it opens.
#[derive(Debug, Clone, PartialEq, Eq)]
pub struct DetectedLink {
    pub start_col: usize,
    pub end_col: usize,
    pub target: String,
}

/// Characters that are cut from both ends of a candidate token.
pub open spec fn is_edge(c: char) -> bool {
    ||| c == '\''
    ||| c == '"'
    ||| c == '`'
    ||| c == ','
    ||| c == '.'
    ||| c == ';'
    ||| c == '!'
    ||| c == '?'
    ||| c == '('
    ||| c == ')'
    ||| c == '['
    ||| c == ']'
    ||| c == '{'
    ||| c == '}'
    ||| c == '<'
    ||| c == '>'
}

pub open spec fn http_scheme() -> Seq<char> {
    seq!['h', 't', 't', 'p', ':', '/', '/']
}

pub open spec fn https_scheme() -> Seq<char> {
    seq!['h', 't', 't', 'p', 's', ':', '/', '/']
}

pub open spec fn file_scheme() -> Seq<char> {
    seq!['f', 'i', 'l', 'e', ':', '/', '/']
}

pub open spec fn www_prefix() -> Seq<char> {
    seq!['w', 'w', 'w', '.']
}

pub open spec fn localhost() -> Seq<char> {
    seq!['l', 'o', 'c', 'a', 'l', 'h', 'o', 's', 't']
}

/// First column of the whitespace-free run that holds column `i`.
pub open spec fn run_start(line: Seq<char>, i: int) -> int
    decreases i,
{
    if i <= 0 || is_ws(line[i - 1]) {
        i
    } else {
        run_start(line, i - 1)
    }
}

/// Last column of the whitespace-free run that holds column `i`.
pub open spec fn run_end(line: Seq<char>, i: int) -> int
    decreases line.len() - i,
{
    if i + 1 >= line.len() || is_ws(line[i + 1]) {
        i
    } else {
        run_end(line, i + 1)
    }
}

/// `s` moved right past the edge characters at the front of `line[s..=e]`.
pub open spec fn skip_edge_front(line: Seq<char>, s: int, e: int) -> int
    decreases e + 1 - s,
{
    if s <= e && is_edge(line[s]) {
        skip_edge_front(line, s + 1, e)
    } else {
        s
    }
}

/// `e` moved left past the edge characters at the back of `line[s..=e]`
/// (never below column 0).
pub open spec fn skip_edge_back(line: Seq<char>, s: int, e: int) -> int
    decreases e,
{
    if e >= s && is_edge(line[e]) && e > 0 {
        skip_edge_back(line, s, e - 1)
    } else {
        e
    }
}

/// The columns of the candidate token under `col`, edge characters cut.
pub open spec fn token_bounds(line: Seq<char>, col: int) -> (int, int) {
    let s = skip_edge_front(line, run_start(line, col), run_end(line, col));
    (s, skip_edge_back(line, s, run_end(line, col)))
}

/// The link under column `col`: its first and last column and its target.
pub open spec fn link_at(line: Seq<char>, col: int) -> Option<(int, int, Seq<char>)> {
    if col < 0 || col >= line.len() || is_ws(line[col]) {
        None
    } else {
        let (s, e) = token_bounds(line, col);
        if s > e {
            None
        } else {
            match classify(trim_end_char(line.subrange(s, e + 1), ':')) {
                Some(t) => Some((s, e, t)),
                None => None,
            }
        }
    }
}

/// What a token opens, if it is a link.
pub open spec fn classify(t: Seq<char>) -> Option<Seq<char>> {
    let l = lower_seq(t);
    if t.len() == 0 {
        None
    } else if has_prefix(l, http_scheme()) || has_prefix(l, https_scheme()) {
        Some(t)
    } else if has_prefix(l, www_prefix()) {
        Some(https_scheme() + t)
    } else if has_prefix(l, file_scheme()) {
        Some(t)
    } else if looks_like_file_path(t) {
        Some(file_scheme() + t)
    } else if is_ipv4_host(t) || looks_like_domain(t) {
        Some(http_scheme() + t)
    } else {
        None
    }
}

/// `s` without a trailing `:` and digits, if it has them.
pub open spec fn strip_number_suffix(s: Seq<char>) -> Option<Seq<char>> {
    let k = last_index(s, ':');
    let suffix = s.skip(k + 1);
    if k >= 0 && suffix.len() > 0 && all_digits(suffix) {
        Some(s.take(k))
    } else {
        None
    }
}

/// `s` without a `:line` or `:line:col` suffix.
pub open spec fn strip_line_col(s: Seq<char>) -> Seq<char> {
    match strip_number_suffix(s) {
        None => s,
        Some(p) => match strip_number_suffix(p) {
            None => p,
            Some(q) => q,
        },
    }
}

/// A path separator, or an extension of one to ten ASCII letters and digits.
pub open spec fn path_like(p: Seq<char>) -> bool {
    let k = last_index(p, '.');
    let ext = p.skip(k + 1);
    ||| p.contains('/')
    ||| p.contains('\\')
    ||| (k >= 0 && 0 < ext.len() <= 10 && all_alnum(ext))
}

pub open spec fn looks_like_file_path(t: Seq<char>) -> bool {
    let p = strip_line_col(t);
    let rooted = p[0] == '/' || has_prefix(p, seq!['~', '/']) || has_prefix(p, seq!['.', '/'])
        || has_prefix(p, seq!['.', '.', '/']);
    let drive = p.len() >= 3 && is_alpha(p[0]) && p[1] == ':' && (p[2] == '\\' || p[2] == '/');
    p.len() > 0 && (rooted || drive) && path_like(p)
}

/// What comes before the first `/`.
pub open spec fn host_port(t: Seq<char>) -> Seq<char> {
    split_by(t, Sep::Char('/'))[0]
}

/// The host: `hp` up to its last `:`, or all of it.
pub open spec fn host_part(hp: Seq<char>) -> Seq<char> {
    let k = last_index(hp, ':');
    if k >= 0 {
        hp.take(k)
    } else {
        hp
    }
}

/// The port: what follows the last `:` of `hp`, if there is one.
pub open spec fn port_part(hp: Seq<char>) -> Option<Seq<char>> {
    let k = last_index(hp, ':');
    if k >= 0 {
        Some(hp.skip(k + 1))
    } else {
        None
    }
}

pub open spec fn port_ok(port: Option<Seq<char>>) -> bool {
    match port {
        None => true,
        Some(p) => p.len() > 0 && all_digits(p) && parses_uint(p, 65535),
    }
}

pub open spec fn octet_ok(o: Seq<char>) -> bool {
    o.len() > 0 && parses_uint(o, 255)
}

pub open spec fn is_ipv4_host(t: Seq<char>) -> bool {
    let hp = host_port(t);
    let octets = split_by(host_part(hp), Sep::Char('.'));
    &&& octets.len() == 4
    &&& forall|i: int| 0 <= i < 4 ==> octet_ok(#[trigger] octets[i])
    &&& port_ok(port_part(hp))
}

pub open spec fn label_ok(l: Seq<char>) -> bool {
    &&& l.len() > 0
    &&& l[0] != '-'
    &&& l.last() != '-'
    &&& forall|i: int| 0 <= i < l.len() ==> is_alnum(#[trigger] l[i]) || l[i] == '-'
}

pub open spec fn looks_like_domain(t: Seq<char>) -> bool {
    let hp = host_port(t);
    let host = host_part(hp);
    let labels = split_by(host, Sep::Char('.'));
    ||| lower_seq(host) == localhost()
    ||| {
        &&& host.contains('.')
        &&& forall|i: int| 0 <= i < labels.len() ==> label_ok(#[trigger] labels[i])
        &&& port_ok(port_part(hp))
    }
}

proof fn lemma_lower_concat(p: Seq<char>, t: Seq<char>)
    ensures
        lower_seq(p + t) == lower_seq(p) + lower_seq(t),
{
    assert(lower_seq(p + t) =~= lower_seq(p) + lower_seq(t));
}

proof fn lemma_prefix_concat(p: Seq<char>, t: Seq<char>)
    ensures
        has_prefix(p + t, p),
{
    assert((p + t).take(p.len() as int) =~= p);
}

proof fn lemma_lower_scheme(p: Seq<char>)
    requires
        p == http_scheme() || p == https_scheme() || p == file_scheme(),
    ensures
        lower_seq(p) == p,
{
    assert(lower_seq(p) =~= p);
}

/// Every link target names its scheme: read without ASCII case, it begins with
/// `http://`, `https://` or `file://`.
pub proof fn classified_target_has_scheme(t: Seq<char>)
    requires
        classify(t) is Some,
    ensures
        ({
            let l = lower_seq(classify(t)->0);
            has_prefix(l, http_scheme()) || has_prefix(l, https_scheme()) || has_prefix(
                l,
                file_scheme(),
            )
        }),
{
    let l = lower_seq(t);
    if has_prefix(l, http_scheme()) || has_prefix(l, https_scheme()) || has_prefix(
        l,
        file_scheme(),
    ) {
    } else {
        let p = if has_prefix(l, www_prefix()) {
            https_scheme()
        } else if looks_like_file_path(t) {
            file_scheme()
        } else {
            http_scheme()
        };
        assert(classify(t)->0 == p + t);
        lemma_lower_concat(p, t);
        lemma_lower_scheme(p);
        lemma_prefix_concat(p, lower_seq(t));
    }
}

/// Classifying a link target again gives the same target back: a target is a
/// link that opens itself.
pub proof fn classify_is_idempotent(t: Seq<char>)
    requires
        classify(t) is Some,
    ensures
        classify(classify(t)->0) == classify(t),
{
    let u = classify(t)->0;
    classified_target_has_scheme(t);
    assert(u.len() > 0) by {
        let l = lower_seq(u);
        assert(l.len() == u.len());
    }
    let lu = lower_seq(u);
    if has_prefix(lu, http_scheme()) || has_prefix(lu, https_scheme()) {
    } else {
        assert(has_prefix(lu, file_scheme()));
        assert(!has_prefix(lu, www_prefix())) by {
            assert(lu[0] == 'f');
            if has_prefix(lu, www_prefix()) {
                assert(lu.take(4)[0] == 'w');
            }
        }
    }
}

proof fn lemma_run_start(line: Seq<char>, i: int)
    requires
        0 <= i < line.len(),
    ensures
        0 <= run_start(line, i) <= i,
        forall|k: int| run_start(line, i) <= k < i ==> !is_ws(#[trigger] line[k]),
    decreases i,
{
    if i > 0 && !is_ws(line[i - 1]) {
        lemma_run_start(line, i - 1);
    }
}

proof fn lemma_run_end(line: Seq<char>, i: int)
    requires
        0 <= i < line.len(),
    ensures
        i <= run_end(line, i) < line.len(),
        forall|k: int| i < k <= run_end(line, i) ==> !is_ws(#[trigger] line[k]),
    decreases line.len() - i,
{
    if i + 1 < line.len() && !is_ws(line[i + 1]) {
        lemma_run_end(line, i + 1);
    }
}

proof fn lemma_skip_front(line: Seq<char>, s: int, e: int)
    requires
        0 <= s <= e + 1,
        e < line.len(),
    ensures
        s <= skip_edge_front(line, s, e) <= e + 1,
        skip_edge_front(line, s, e) <= e ==> !is_edge(line[skip_edge_front(line, s, e)]),
    decreases e + 1 - s,
{
    if s <= e && is_edge(line[s]) {
        lemma_skip_front(line, s + 1, e);
    }
}

proof fn lemma_skip_back(line: Seq<char>, s: int, e: int)
    requires
        0 <= e < line.len(),
    ensures
        0 <= skip_edge_back(line, s, e) <= e,
        skip_edge_back(line, s, e) >= s && skip_edge_back(line, s, e) > 0 ==> !is_edge(
            line[skip_edge_back(line, s, e)],
        ),
    decreases e,
{
    if e >= s && is_edge(line[e]) && e > 0 {
        lemma_skip_back(line, s, e - 1);
    }
}

/// A detected link spans whitespace-free columns of the line, and neither its
/// first nor its last column holds one of the edge characters that are cut.
pub proof fn link_span_is_trimmed_word(line: Seq<char>, col: int)
    requires
        link_at(line, col) is Some,
    ensures
        ({
            let (s, e, t) = link_at(line, col)->0;
            &&& 0 <= s <= e < line.len()
            &&& forall|k: int| s <= k <= e ==> !is_ws(#[trigger] line[k])
            &&& !is_edge(line[s])
            &&& !is_edge(line[e])
        }),
{
    let rs = run_start(line, col);
    let re = run_end(line, col);
    lemma_run_start(line, col);
    lemma_run_end(line, col);
    lemma_skip_front(line, rs, re);
    let s = skip_edge_front(line, rs, re);
    lemma_skip_back(line, s, re);
    let e = skip_edge_back(line, s, re);
    assert(s <= e);
    assert forall|k: int| s <= k <= e implies !is_ws(#[trigger] line[k]) by {
        if k < col {
        } else if k > col {
        }
    }
    if e == 0 {
        assert(s == 0);
    }
}

proof fn lemma_push_run_start(line: Seq<char>, c: char, i: int)
    requires
        0 <= i < line.len(),
    ensures
        run_start(line.push(c), i) == run_start(line, i),
    decreases i,
{
    let l2 = line.push(c);
    if i > 0 {
        assert(l2[i - 1] == line[i - 1]);
        if !is_ws(line[i - 1]) {
            lemma_push_run_start(line, c, i - 1);
        }
    }
}

proof fn lemma_push_run_end(line: Seq<char>, c: char, i: int)
    requires
        0 <= i < line.len(),
        !is_ws(c),
    ensures
        run_end(line.push(c), i) == (if run_end(line, i) == line.len() - 1 {
            line.len() as int
        } else {
            run_end(line, i)
        }),
    decreases line.len() - i,
{
    let l2 = line.push(c);
    let n = line.len() as int;
    if i + 1 >= n {
        assert(l2[n] == c);
        assert(run_end(l2, n) == n);
    } else {
        assert(l2[i + 1] == line[i + 1]);
        if !is_ws(line[i + 1]) {
            lemma_push_run_end(line, c, i + 1);
        } else {
            lemma_run_end(line, i);
        }
    }
}

proof fn lemma_push_skip_front_inner(line: Seq<char>, c: char, s: int, e: int)
    requires
        0 <= s,
        e < line.len(),
    ensures
        skip_edge_front(line.push(c), s, e) == skip_edge_front(line, s, e),
    decreases e + 1 - s,
{
    if s <= e {
        assert(line.push(c)[s] == line[s]);
        if is_edge(line[s]) {
            lemma_push_skip_front_inner(line, c, s + 1, e);
        }
    }
}

proof fn lemma_push_skip_front_last(line: Seq<char>, c: char, s: int)
    requires
        0 <= s <= line.len(),
        is_edge(c),
    ensures
        ({
            let old_s = skip_edge_front(line, s, line.len() - 1);
            skip_edge_front(line.push(c), s, line.len() as int) == if old_s <= line.len() - 1 {
                old_s
            } else {
                line.len() + 1int
            }
        }),
    decreases line.len() + 1 - s,
{
    let l2 = line.push(c);
    let n = line.len() as int;
    if s == n {
        assert(l2[n] == c);
        assert(skip_edge_front(l2, n + 1, n) == n + 1);
    } else {
        assert(l2[s] == line[s]);
        if is_edge(line[s]) {
            lemma_push_skip_front_last(line, c, s + 1);
        }
    }
}

proof fn lemma_push_skip_back_inner(line: Seq<char>, c: char, s: int, e: int)
    requires
        0 <= e < line.len(),
    ensures
        skip_edge_back(line.push(c), s, e) == skip_edge_back(line, s, e),
    decreases e,
{
    assert(line.push(c)[e] == line[e]);
    if e >= s && is_edge(line[e]) && e > 0 {
        lemma_push_skip_back_inner(line, c, s, e - 1);
    }
}

/// Punctuation that ends a line never joins a link: appending one of the
/// characters cut from link edges (such as a sentence's final period) leaves
/// the link under every column as it was, and the link under that character
/// is the one under the column before it.
pub proof fn trailing_punctuation_is_not_part_of_links(line: Seq<char>, c: char, col: int)
    requires
        c == '.' || c == ',' || c == ';' || c == '!' || c == '?' || c == ')' || c == ']' || c
            == '}' || c == '>' || c == '\'' || c == '"' || c == '`',
        0 <= col < line.len(),
    ensures
        link_at(line.push(c), col) == link_at(line, col),
        col == line.len() - 1 && !is_ws(line[col]) ==> link_at(line.push(c), line.len() as int)
            == link_at(line, col),
{
    let l2 = line.push(c);
    let n = line.len() as int;
    assert(is_edge(c));
    assert(!is_ws(c));
    assert(l2[col] == line[col]);
    if !is_ws(line[col]) {
        lemma_push_run_start(line, c, col);
        lemma_push_run_end(line, c, col);
        lemma_run_start(line, col);
        lemma_run_end(line, col);
        let rs = run_start(line, col);
        let re = run_end(line, col);
        if re < n - 1 {
            lemma_push_skip_front_inner(line, c, rs, re);
            let s = skip_edge_front(line, rs, re);
            lemma_skip_front(line, rs, re);
            lemma_push_skip_back_inner(line, c, s, re);
            let e = skip_edge_back(line, s, re);
            lemma_skip_back(line, s, re);
            if s <= e {
                assert(l2.subrange(s, e + 1) =~= line.subrange(s, e + 1));
            }
        } else {
            lemma_push_skip_front_last(line, c, rs);
            lemma_skip_front(line, rs, n - 1);
            let s = skip_edge_front(line, rs, n - 1);
            if s <= n - 1 {
                lemma_push_skip_back_inner(line, c, s, n - 1);
                assert(l2[n] == c);
                assert(skip_edge_back(l2, s, n) == skip_edge_back(l2, s, n - 1));
                let e = skip_edge_back(line, s, n - 1);
                lemma_skip_back(line, s, n - 1);
                if s <= e {
                    assert(l2.subrange(s, e + 1) =~= line.subrange(s, e + 1));
                }
            } else {
                assert(skip_edge_back(l2, n + 1, n) == n);
                lemma_skip_back(line, s, n - 1);
            }
        }
    }
    if col == n - 1 && !is_ws(line[col]) {
        assert(l2[n - 1] == line[n - 1]);
        assert(run_start(l2, n) == run_start(l2, n - 1));
        assert(l2[n] == c);
        assert(run_end(l2, n) == n);
        lemma_push_run_end(line, c, n - 1);
        assert(run_end(line, n - 1) == n - 1);
        assert(token_bounds(l2, n) == token_bounds(l2, n - 1));
    }
}

proof fn lemma_lower_keeps_colon_slash(c: char)
    requires
        lower(c) == ':' || lower(c) == '/',
    ensures
        c == lower(c),
{
}

proof fn lemma_no_sep_split(s: Seq<char>, c: char)
    requires
        forall|k: int| 0 <= k < s.len() ==> s[k] != c,
    ensures
        split_by(s, Sep::Char(c)) == seq![s],
    decreases s.len(),
{
    if s.len() > 0 {
        let d = s.drop_last();
        lemma_no_sep_split(d, c);
        assert(d.push(s.last()) =~= s);
        assert(seq![d].update(0, d.push(s.last())) =~= seq![s]);
    } else {
        assert(s =~= Seq::<char>::empty());
    }
}

proof fn lemma_split_first_piece(s: Seq<char>, q: Seq<char>, c: char)
    requires
        forall|k: int| 0 <= k < q.len() ==> q[k] != c,
        q.len() + 1 <= s.len(),
        s.take(q.len() + 1int) == q.push(c),
    ensures
        split_by(s, Sep::Char(c)).len() >= 2,
        split_by(s, Sep::Char(c))[0] == q,
    decreases s.len(),
{
    if s.len() == q.len() + 1 {
        assert(s =~= q.push(c));
        assert(s.drop_last() =~= q);
        assert(s.last() == c);
        lemma_no_sep_split(q, c);
    } else {
        let d = s.drop_last();
        assert(d.take(q.len() + 1int) =~= s.take(q.len() + 1int));
        lemma_split_first_piece(d, q, c);
    }
}

proof fn lemma_last_index_bounds(s: Seq<char>, c: char)
    ensures
        -1 <= last_index(s, c) < s.len(),
        last_index(s, c) >= 0 ==> s[last_index(s, c)] == c,
    decreases s.len(),
{
    if s.len() > 0 && s.last() != c {
        lemma_last_index_bounds(s.drop_last(), c);
    }
}

/// Stripping a `:line:col` suffix keeps a prefix that holds no `:`.
proof fn lemma_strip_keeps_prefix(s: Seq<char>, q: Seq<char>)
    requires
        has_prefix(s, q),
        forall|k: int| 0 <= k < q.len() ==> q[k] != ':',
    ensures
        has_prefix(strip_line_col(s), q),
{
    lemma_strip_one_keeps_prefix(s, q);
    match strip_number_suffix(s) {
        None => {},
        Some(x) => {
            lemma_strip_one_keeps_prefix(x, q);
        },
    }
}

proof fn lemma_strip_one_keeps_prefix(s: Seq<char>, q: Seq<char>)
    requires
        has_prefix(s, q),
        forall|k: int| 0 <= k < q.len() ==> q[k] != ':',
    ensures
        strip_number_suffix(s) matches Some(x) ==> has_prefix(x, q),
{
    lemma_last_index_bounds(s, ':');
    let k = last_index(s, ':');
    if k >= 0 {
        if k < q.len() {
            assert(s.take(q.len() as int)[k] == s[k]);
        }
        assert(s.take(k).take(q.len() as int) =~= s.take(q.len() as int));
    }
}

/// A scheme-like prefix `P` (letters, then `:` at `q0`) does not begin
/// `h/...` when `h` holds no `:`.
proof fn lemma_no_scheme_after_host(h: Seq<char>, p: Seq<char>, pre: Seq<char>, q0: int)
    requires
        forall|k: int| 0 <= k < h.len() ==> h[k] != ':',
        0 <= q0 < pre.len(),
        pre[q0] == ':',
        forall|j: int| 0 <= j <= q0 ==> pre[j] != '/',
    ensures
        !has_prefix(lower_seq(h + seq!['/'] + p), pre),
{
    let t = h + seq!['/'] + p;
    let lt = lower_seq(t);
    if has_prefix(lt, pre) {
        if q0 < h.len() {
            assert(lt.take(pre.len() as int)[q0] == lt[q0]);
            assert(t[q0] == h[q0]);
            lemma_lower_keeps_colon_slash(t[q0]);
        } else {
            let n = h.len() as int;
            assert(lt.take(pre.len() as int)[n] == lt[n]);
            assert(t[n] == '/');
        }
    }
}

/// `h` is one of "~", "." and "..".
proof fn lemma_tiny_hosts_are_not_hosts(h: Seq<char>)
    requires
        h == seq!['~'] || h == seq!['.'] || h == seq!['.', '.'],
    ensures
        !is_ipv4_host(h),
        !looks_like_domain(h),
{
    lemma_no_sep_split(h, '/');
    assert(host_port(h) == h);
    lemma_last_index_bounds(h, ':');
    assert forall|k: int| 0 <= k < h.len() implies h[k] != ':' by {}
    assert(host_part(h) == h);
    assert(lower_seq(h).len() != localhost().len());
    if h == seq!['~'] {
        lemma_no_sep_split(h, '.');
        assert(!h.contains('.')) by {
            if h.contains('.') {
                let k = choose|k: int| 0 <= k < h.len() && h[k] == '.';
            }
        }
    } else {
        let d = h.drop_last();
        let sp = split_by(h, Sep::Char('.'));
        assert(h.last() == '.');
        if h.len() == 1 {
            assert(d =~= Seq::<char>::empty());
            assert(split_by(d, Sep::Char('.')) =~= seq![Seq::<char>::empty()]);
            assert(sp =~= seq![Seq::<char>::empty(), Seq::<char>::empty()]);
        } else {
            assert(d =~= seq!['.']);
            assert(d.drop_last() =~= Seq::<char>::empty());
            assert(d.last() == '.');
            assert(split_by(d.drop_last(), Sep::Char('.')) =~= seq![Seq::<char>::empty()]);
            assert(split_by(d, Sep::Char('.')) =~= seq![Seq::<char>::empty(), Seq::<char>::empty()]);
            assert(sp =~= seq![Seq::<char>::empty(), Seq::<char>::empty(), Seq::<char>::empty()]);
        }
        assert(!label_ok(sp[0]));
    }
}

/// Whether a bare host is a link depends only on what precedes its first
/// `/`: a host (no `/`, no `:`) that opens over `http://` still does with any
/// path after it, and the path stays in the target.
pub proof fn bare_host_link_keeps_its_path(h: Seq<char>, p: Seq<char>)
    requires
        h.len() > 0,
        !h.contains('/'),
        !h.contains(':'),
        classify(h) == Some(http_scheme() + h),
    ensures
        classify(h + seq!['/'] + p) == Some(http_scheme() + (h + seq!['/'] + p)),
{
    let t = h + seq!['/'] + p;
    let n = h.len() as int;
    assert forall|k: int| 0 <= k < h.len() implies h[k] != '/' && h[k] != ':' by {
        if h[k] == '/' {
            assert(h.contains('/'));
        }
        if h[k] == ':' {
            assert(h.contains(':'));
        }
    }
    // What follows from how `h` itself was classified.
    let lh = lower_seq(h);
    assert((http_scheme() + h).len() != h.len());
    assert((https_scheme() + h).len() != (http_scheme() + h).len());
    assert((file_scheme() + h)[0] != (http_scheme() + h)[0]);
    assert(!has_prefix(lh, http_scheme()) && !has_prefix(lh, https_scheme()));
    assert(!has_prefix(lh, www_prefix()));
    assert(is_ipv4_host(h) || looks_like_domain(h));
    // The host of `t` is `h`.
    assert(t.take(n + 1) =~= h.push('/'));
    lemma_split_first_piece(t, h, '/');
    lemma_no_sep_split(h, '/');
    assert(host_port(t) == host_port(h));
    assert(is_ipv4_host(t) == is_ipv4_host(h));
    assert(looks_like_domain(t) == looks_like_domain(h));
    // No scheme and no `www.` begins `t`.
    let lt = lower_seq(t);
    lemma_no_scheme_after_host(h, p, http_scheme(), 4);
    lemma_no_scheme_after_host(h, p, https_scheme(), 5);
    lemma_no_scheme_after_host(h, p, file_scheme(), 4);
    assert(!has_prefix(lt, www_prefix())) by {
        if has_prefix(lt, www_prefix()) {
            if n >= 4 {
                assert forall|j: int| 0 <= j < 4 implies lh.take(4)[j] == www_prefix()[j] by {
                    assert(lt.take(4)[j] == lt[j]);
                    assert(t[j] == h[j]);
                }
                assert(lh.take(4) =~= www_prefix());
            } else {
                assert(lt.take(4)[n] == lt[n]);
                assert(t[n] == '/');
            }
        }
    }
    // `t` is no file path.
    let q = h.push('/');
    assert(has_prefix(t, q)) by {
        assert(t.take(q.len() as int) =~= q);
    }
    assert forall|k: int| 0 <= k < q.len() implies q[k] != ':' by {
        if k < n {
            assert(q[k] == h[k]);
        }
    }
    lemma_strip_keeps_prefix(t, q);
    let ps = strip_line_col(t);
    assert(ps.take(q.len() as int) == q);
    assert(ps[0] == q[0]);
    assert(ps[1] == q[1]);
    if looks_like_file_path(t) {
        assert(ps[0] == h[0]);
        if n >= 2 {
            assert(ps[1] == h[1]);
            if n >= 3 {
                assert(ps.len() >= 3);
                assert(ps[2] == q[2]);
                assert(ps[2] == h[2]);
                assert(has_prefix(ps, seq!['~', '/']) ==> ps.take(2)[1] == '/');
                assert(has_prefix(ps, seq!['.', '/']) ==> ps.take(2)[1] == '/');
                assert(has_prefix(ps, seq!['.', '.', '/']) ==> ps.take(3)[2] == '/');
            } else {
                assert(has_prefix(ps, seq!['~', '/']) ==> ps.take(2)[1] == '/');
                assert(has_prefix(ps, seq!['.', '/']) ==> ps.take(2)[1] == '/');
                assert(has_prefix(ps, seq!['.', '.', '/']) ==> ps.take(3)[0] == '.' && ps.take(3)[1] == '.');
                if has_prefix(ps, seq!['.', '.', '/']) {
                    assert(h =~= seq!['.', '.']);
                    lemma_tiny_hosts_are_not_hosts(h);
                }
                assert(ps.len() >= 3 ==> ps[1] != ':');
            }
        } else {
            assert(ps[1] == '/');
            assert(has_prefix(ps, seq!['~', '/']) ==> ps.take(2)[0] == '~');
            assert(has_prefix(ps, seq!['.', '/']) ==> ps.take(2)[0] == '.');
            assert(has_prefix(ps, seq!['.', '.', '/']) ==> ps.take(3)[1] == '.');
            if has_prefix(ps, seq!['~', '/']) {
                assert(h =~= seq!['~']);
                lemma_tiny_hosts_are_not_hosts(h);
            }
            if has_prefix(ps, seq!['.', '/']) {
                assert(h =~= seq!['.']);
                lemma_tiny_hosts_are_not_hosts(h);
            }
        }
    }
    assert(!looks_like_file_path(t));
}

fn edge_trim_char(c: char) -> (b: bool)
    ensures
        b == is_edge(c),
{
    c == '\'' || c == '"' || c == '`' || c == ',' || c == '.' || c == ';' || c == '!' || c
        == '?' || c == '(' || c == ')' || c == '[' || c == ']' || c == '{' || c == '}' || c
        == '<' || c == '>'
}

/// The link under column `col` of `line`, if there is one.
pub fn find_link_in_line(line: &[char], col: usize) -> (r: Option<DetectedLink>)
    ensures
        match link_at(line@, col as int) {
            None => r is None,
            Some((s, e, t)) => r matches Some(l) && l.start_col == s && l.end_col == e
                && l.target@ == t,
        },
{
    if col >= line.len() || whitespace(line[col]) {
        return None;
    }
    let ghost l = line@;
    let mut start: usize = col;
    while start > 0 && !whitespace(line[start - 1])
        invariant
            start <= col < line.len(),
            run_start(l, start as int) == run_start(l, col as int),
            l == line@,
        decreases start,
    {
        start = start - 1;
    }
    let mut end: usize = col;
    while end + 1 < line.len() && !whitespace(line[end + 1])
        invariant
            col <= end < line.len(),
            run_end(l, end as int) == run_end(l, col as int),
            l == line@,
        decreases line.len() - end,
    {
        end = end + 1;
    }
    let ghost e0 = end as int;
    assert(e0 == run_end(l, col as int));
    assert(start == run_start(l, col as int));
    while start <= end && edge_trim_char(line[start])
        invariant
            end < line.len(),
            start <= end + 1,
            skip_edge_front(l, start as int, e0) == skip_edge_front(l, run_start(l, col as int), e0),
            end == e0,
            l == line@,
        decreases end + 1 - start,
    {
        start = start + 1;
    }
    let ghost s1 = start as int;
    assert(s1 == token_bounds(l, col as int).0);
    while end >= start && edge_trim_char(line[end])
        invariant
            end < line.len(),
            start == s1,
            skip_edge_back(l, s1, end as int) == skip_edge_back(l, s1, e0),
            l == line@,
        ensures
            end as int == skip_edge_back(l, s1, e0),
        decreases end,
    {
        if end == 0 {
            break;
        }
        end = end - 1;
    }
    assert(end == token_bounds(l, col as int).1);
    if start > end {
        return None;
    }
    let token = slice_of(line, start, end + 1);
    let trimmed = trim_end_matching(token.as_slice(), ':');
    match classify_chars(trimmed.as_slice()) {
        Some(target) => Some(DetectedLink { start_col: start, end_col: end, target: string_of(target.as_slice()) }),
        None => None,
    }
}

/// What `token` opens, if it is a link: `http(s)://` and `file://` links as
/// they are, `www.` hosts over `https://`, file paths over `file://`, and IPv4
/// hosts and domains over `http://`.
pub fn classify_link_token(token: &str) -> (r: Option<String>)
    ensures
        match classify(token@) {
            None => r is None,
            Some(t) => r matches Some(s) && s@ == t,
        },
{
    let t = str_chars(token);
    match classify_chars(t.as_slice()) {
        Some(v) => Some(string_of(v.as_slice())),
        None => None,
    }
}

fn prefixed(p: Vec<char>, t: &[char]) -> (r: Vec<char>)
    ensures
        r@ == p@ + t@,
{
    let mut r = p;
    let ghost r0 = r@;
    let mut i: usize = 0;
    while i < t.len()
        invariant
            i <= t.len(),
            r@ == r0 + t@.take(i as int),
        decreases t.len() - i,
    {
        r.push(t[i]);
        i = i + 1;
        assert(r@ =~= r0 + t@.take(i as int));
    }
    assert(t@.take(t.len() as int) =~= t@);
    r
}

fn classify_chars(t: &[char]) -> (r: Option<Vec<char>>)
    ensures
        match classify(t@) {
            None => r is None,
            Some(s) => r matches Some(v) && v@ == s,
        },
{
    if t.len() == 0 {
        return None;
    }
    let http = vec!['h', 't', 't', 'p', ':', '/', '/'];
    let https = vec!['h', 't', 't', 'p', 's', ':', '/', '/'];
    let file = vec!['f', 'i', 'l', 'e', ':', '/', '/'];
    let www = vec!['w', 'w', 'w', '.'];
    if starts_with_lower(t, http.as_slice()) || starts_with_lower(t, https.as_slice()) {
        return Some(slice_of(t, 0, t.len()));
    }
    if starts_with_lower(t, www.as_slice()) {
        return Some(prefixed(https, t));
    }
    if starts_with_lower(t, file.as_slice()) {
        return Some(slice_of(t, 0, t.len()));
    }
    if looks_like_file_path_chars(t) {
        return Some(prefixed(file, t));
    }
    if is_ipv4_with_optional_port_and_path(t) || looks_like_domain_chars(t) {
        return Some(prefixed(http, t));
    }
    None
}

/// `s` without a trailing `:digits`, if it has one.
fn strip_number_suffix_chars(s: &[char]) -> (r: Option<Vec<char>>)
    ensures
        match strip_number_suffix(s@) {
            None => r is None,
            Some(p) => r matches Some(v) && v@ == p,
        },
{
    let found = rfind(s, ':');
    match found {
        Some(k) => {
            let suffix = slice_of(s, k + 1, s.len());
            assert(suffix@ =~= s@.skip(k + 1));
            if suffix.len() > 0 && all_ascii_digits(suffix.as_slice()) {
                Some(slice_of(s, 0, k))
            } else {
                None
            }
        },
        None => None,
    }
}

fn strip_line_col_suffix(input: &[char]) -> (r: Vec<char>)
    ensures
        r@ == strip_line_col(input@),
{
    match strip_number_suffix_chars(input) {
        None => slice_of(input, 0, input.len()),
        Some(p) => match strip_number_suffix_chars(p.as_slice()) {
            None => p,
            Some(q) => q,
        },
    }
}

fn has_path_like_structure(path: &[char]) -> (r: bool)
    ensures
        r == path_like(path@),
{
    if contains_char(path, '/') || contains_char(path, '\\') {
        return true;
    }
    let found = rfind(path, '.');
    match found {
        Some(k) => {
            let ext = slice_of(path, k + 1, path.len());
            assert(ext@ =~= path@.skip(k + 1));
            ext.len() > 0 && ext.len() <= 10 && all_ascii_alnum(ext.as_slice())
        },
        None => false,
    }
}

fn looks_like_file_path_chars(input: &[char]) -> (r: bool)
    ensures
        r == looks_like_file_path(input@),
{
    let path = strip_line_col_suffix(input);
    if path.len() == 0 {
        return false;
    }
    let home = vec!['~', '/'];
    let here = vec!['.', '/'];
    let up = vec!['.', '.', '/'];
    if path[0] == '/' || starts_with(path.as_slice(), home.as_slice()) || starts_with(
        path.as_slice(),
        here.as_slice(),
    ) || starts_with(path.as_slice(), up.as_slice()) {
        return has_path_like_structure(path.as_slice());
    }
    if path.len() >= 3 && ascii_alpha(path[0]) && path[1] == ':' && (path[2] == '\\' || path[2]
        == '/') {
        return has_path_like_structure(path.as_slice());
    }
    false
}

/// The host and the optional port of `input`, read before its first `/`.
fn host_and_port(input: &[char]) -> (r: (Vec<char>, Option<Vec<char>>))
    ensures
        r.0@ == host_part(host_port(input@)),
        match port_part(host_port(input@)) {
            None => r.1 is None,
            Some(p) => r.1 matches Some(v) && v@ == p,
        },
{
    let parts = split(input, &Sep::Char('/'));
    proof {
        lemma_split_nonempty(input@, Sep::Char('/'));
        assert(parts@[0]@ == views(parts@)[0]);
    }
    let hp = &parts[0];
    match rfind(hp.as_slice(), ':') {
        Some(k) => {
            let host = slice_of(hp.as_slice(), 0, k);
            let port = slice_of(hp.as_slice(), k + 1, hp.len());
            assert(host@ =~= hp@.take(k as int));
            assert(port@ =~= hp@.skip(k + 1));
            (host, Some(port))
        },
        None => (slice_of(hp.as_slice(), 0, hp.len()), None),
    }
}

fn port_valid(port: &Option<Vec<char>>) -> (r: bool)
    ensures
        r == port_ok(match port {
            None => None,
            Some(v) => Some(v@),
        }),
{
    match port {
        None => true,
        Some(p) => p.len() > 0 && all_ascii_digits(p.as_slice()) && parse_uint_ok(
            p.as_slice(),
            65535,
        ),
    }
}

fn is_ipv4_with_optional_port_and_path(input: &[char]) -> (r: bool)
    ensures
        r == is_ipv4_host(input@),
{
    let (host, port) = host_and_port(input);
    let octets = split(host.as_slice(), &Sep::Char('.'));
    let ghost o = views(octets@);
    if octets.len() != 4 {
        return false;
    }
    let mut i: usize = 0;
    while i < 4
        invariant
            i <= 4,
            octets.len() == 4,
            o == views(octets@),
            o == split_by(host_part(host_port(input@)), Sep::Char('.')),
            forall|j: int| 0 <= j < i ==> octet_ok(#[trigger] o[j]),
        decreases 4 - i,
    {
        assert(octets@[i as int]@ == o[i as int]);
        if octets[i].len() == 0 || !parse_uint_ok(octets[i].as_slice(), 255) {
            assert(!octet_ok(o[i as int]));
            return false;
        }
        i = i + 1;
    }
    port_valid(&port)
}

fn label_valid(l: &[char]) -> (r: bool)
    ensures
        r == label_ok(l@),
{
    if l.len() == 0 || l[0] == '-' || l[l.len() - 1] == '-' {
        return false;
    }
    let mut i: usize = 0;
    while i < l.len()
        invariant
            i <= l.len(),
            forall|j: int| 0 <= j < i ==> is_alnum(#[trigger] l@[j]) || l@[j] == '-',
        decreases l.len() - i,
    {
        if !(ascii_alnum(l[i]) || l[i] == '-') {
            return false;
        }
        i = i + 1;
    }
    true
}

fn looks_like_domain_chars(input: &[char]) -> (r: bool)
    ensures
        r == looks_like_domain(input@),
{
    let (host, port) = host_and_port(input);
    let lowered = lower_chars(host.as_slice());
    let local = vec!['l', 'o', 'c', 'a', 'l', 'h', 'o', 's', 't'];
    if chars_equal(lowered.as_slice(), local.as_slice()) {
        return true;
    }
    if !contains_char(host.as_slice(), '.') {
        return false;
    }
    let labels = split(host.as_slice(), &Sep::Char('.'));
    let ghost ls = views(labels@);
    let mut i: usize = 0;
    while i < labels.len()
        invariant
            i <= labels.len(),
            ls == views(labels@),
            ls == split_by(host_part(host_port(input@)), Sep::Char('.')),
            lower_seq(host_part(host_port(input@))) != localhost(),
            forall|j: int| 0 <= j < i ==> label_ok(#[trigger] ls[j]),
        decreases labels.len() - i,
    {
        assert(labels@[i as int]@ == ls[i as int]);
        if !label_valid(labels[i].as_slice()) {
            assert(!label_ok(ls[i as int]));
            return false;
        }
        i = i + 1;
    }
    port_valid(&port)
}

} // verus!
