use vstd::prelude::*;

use rustls::pki_types::{InvalidDnsNameError, ServerName};

use crate::error::PipeError;

verus! {

/// The Unicode `White_Space` property, which both `str::trim` and the
/// regular-expression class `\s` use.
pub open spec fn is_white_space(c: char) -> bool {
    ||| ('\u{9}' <= c && c <= '\u{d}')
    ||| c == ' '
    ||| c == '\u{85}'
    ||| c == '\u{a0}'
    ||| c == '\u{1680}'
    ||| ('\u{2000}' <= c && c <= '\u{200a}')
    ||| c == '\u{2028}'
    ||| c == '\u{2029}'
    ||| c == '\u{202f}'
    ||| c == '\u{205f}'
    ||| c == '\u{3000}'
}

/// `s` without its leading white space.
pub open spec fn trim_start_ws(s: Seq<char>) -> Seq<char>
    decreases s.len(),
{
    if s.len() > 0 && is_white_space(s[0]) {
        trim_start_ws(s.drop_first())
    } else {
        s
    }
}

/// `s` without its trailing white space.
pub open spec fn trim_end_ws(s: Seq<char>) -> Seq<char>
    decreases s.len(),
{
    if s.len() > 0 && is_white_space(s.last()) {
        trim_end_ws(s.drop_last())
    } else {
        s
    }
}

/// `s` without leading and trailing white space.
pub open spec fn trim_ws(s: Seq<char>) -> Seq<char> {
    trim_end_ws(trim_start_ws(s))
}

/// `str::trim`: the documentation of std says that it removes leading and
/// trailing characters with the Unicode `White_Space` property.
#[verifier::external_body]
fn str_trim(s: &str) -> (res: &str)
    ensures
        res@ == trim_ws(s@),
{
    s.trim()
}

/// `s` with every maximal run of white space replaced by `rep`.
pub open spec fn replace_ws_runs(s: Seq<char>, rep: Seq<char>) -> Seq<char>
    decreases s.len(),
{
    if s.len() == 0 {
        Seq::empty()
    } else {
        let init = s.drop_last();
        if !is_white_space(s.last()) {
            replace_ws_runs(init, rep).push(s.last())
        } else if init.len() > 0 && is_white_space(init.last()) {
            replace_ws_runs(init, rep)
        } else {
            replace_ws_runs(init, rep) + rep
        }
    }
}

/// The regular expression that matches a run of white space.
pub open spec fn ws_run_pattern() -> Seq<char> {
    seq!['\\', 's', '+']
}

/// `Regex::new(pattern).unwrap().replace_all(haystack, replacement)` of the
/// `regex` crate, for the one pattern `\s+`: its documentation says that `\s`
/// is the Unicode `White_Space` class, that `+` is greedy, and that
/// `replace_all` replaces every non-overlapping leftmost match; a replacement
/// without `$` is inserted literally. So every maximal run of white space
/// becomes the replacement. The pattern compiles, so the `unwrap` never panics.
#[verifier::external_body]
fn regex_replace_all(pattern: &str, haystack: &str, replacement: &str) -> (res: String)
    requires
        pattern@ == ws_run_pattern(),
        !replacement@.contains('$'),
    ensures
        res@ == replace_ws_runs(haystack@, replacement@),
{
    regex::Regex::new(pattern).unwrap().replace_all(haystack, replacement).into_owned()
}

/// The address that a connection to `addr` is made to: `addr` without
/// leading and trailing white space, with every inner run of white space
/// turned into `:`, so that `"host 80"` becomes `"host:80"`.
pub open spec fn trim_addr_spec(addr: Seq<char>) -> Seq<char> {
    replace_ws_runs(trim_ws(addr), seq![':'])
}

/// Normalises an address as given by a user into `host:port` form.
pub fn trim_addr(addr: &str) -> (res: String)
    ensures
        res@ == trim_addr_spec(addr@),
{
    let pattern = "\\s+";
    let colon = ":";
    proof {
        reveal_strlit("\\s+");
        reveal_strlit(":");
        assert(pattern@ =~= ws_run_pattern());
        assert(colon@ =~= seq![':']);
        assert(!colon@.contains('$')) by {
            if colon@.contains('$') {
                let k = choose|k: int| 0 <= k < colon@.len() && colon@[k] == '$';
                assert(colon@[k] == ':');
            }
        }
    }
    let trimmed = str_trim(addr);
    regex_replace_all(pattern, trimmed, colon)
}

/// The part of `s` before its first `delim`; all of `s` when there is none.
pub open spec fn before_first(s: Seq<char>, delim: char) -> Seq<char>
    decreases s.len(),
{
    if s.len() == 0 {
        s
    } else if s[0] == delim {
        Seq::empty()
    } else {
        seq![s[0]] + before_first(s.drop_first(), delim)
    }
}

/// `str::split_once` with a `char` pattern: std documents that it splits `s`
/// on the first occurrence of the delimiter, and gives `None` when there is
/// none.
#[verifier::external_body]
fn str_split_once(s: &str, delim: char) -> (res: Option<(&str, &str)>)
    ensures
        res is None ==> !s@.contains(delim),
        res matches Some(parts) ==> {
            &&& s@ == parts.0@ + seq![delim] + parts.1@
            &&& !parts.0@.contains(delim)
        },
{
    s.split_once(delim)
}

proof fn lemma_before_first_absent(s: Seq<char>, delim: char)
    requires
        !s.contains(delim),
    ensures
        before_first(s, delim) == s,
    decreases s.len(),
{
    if s.len() > 0 {
        assert(s[0] != delim);
        assert(!s.drop_first().contains(delim)) by {
            if s.drop_first().contains(delim) {
                let k = choose|k: int| 0 <= k < s.drop_first().len() && s.drop_first()[k] == delim;
                assert(s[k + 1] == delim);
            }
        }
        lemma_before_first_absent(s.drop_first(), delim);
        assert(seq![s[0]] + s.drop_first() =~= s);
    }
}

proof fn lemma_before_first_split(a: Seq<char>, b: Seq<char>, delim: char)
    requires
        !a.contains(delim),
    ensures
        before_first(a + seq![delim] + b, delim) == a,
    decreases a.len(),
{
    let s = a + seq![delim] + b;
    if a.len() == 0 {
        assert(s[0] == delim);
    } else {
        assert(a[0] != delim);
        assert(!a.drop_first().contains(delim)) by {
            if a.drop_first().contains(delim) {
                let k = choose|k: int| 0 <= k < a.drop_first().len() && a.drop_first()[k] == delim;
                assert(a[k + 1] == delim);
            }
        }
        lemma_before_first_split(a.drop_first(), b, delim);
        assert(s.drop_first() =~= a.drop_first() + seq![delim] + b);
        assert(seq![a[0]] + a.drop_first() =~= a);
    }
}

/// The host name that a TLS connection to `addr` presents to the server: the
/// normalised address up to its first `:`.
pub open spec fn tls_domain_spec(addr: Seq<char>) -> Seq<char> {
    before_first(trim_addr_spec(addr), ':')
}

/// The host part of an address, for the server name of a TLS connection.
pub fn tls_domain(addr: &str) -> (res: String)
    ensures
        res@ == tls_domain_spec(addr@),
{
    let target = trim_addr(addr);
    match str_split_once(target.as_str(), ':') {
        Some(parts) => {
            proof {
                lemma_before_first_split(parts.0@, parts.1@, ':');
            }
            parts.0.to_owned()
        },
        None => {
            proof {
                lemma_before_first_absent(target@, ':');
            }
            target
        },
    }
}

#[verifier::external_type_specification]
#[verifier::external_body]
pub struct ExServerName<'a>(ServerName<'a>);

#[verifier::external_type_specification]
#[verifier::external_body]
pub struct ExInvalidDnsNameError(InvalidDnsNameError);

/// What `ServerName::try_from` of `rustls` (from `rustls-pki-types`) makes
/// of a name: the server name, when the name is a valid DNS name or else an
/// IP address; nothing otherwise.
pub uninterp spec fn parsed_server_name(name: Seq<char>) -> Option<ServerName<'static>>;

/// `<ServerName<'static> as TryFrom<String>>::try_from` of `rustls`: its
/// result is the parse of the name, `parsed_server_name`.
#[verifier::external_body]
fn server_name_try_from(name: String) -> (res: Result<ServerName<'static>, InvalidDnsNameError>)
    ensures
        res is Ok <==> parsed_server_name(name@) is Some,
        res matches Ok(sn) ==> parsed_server_name(name@) == Some(sn),
{
    ServerName::try_from(name)
}

/// The outcome of parsing a server name, in the library's error type.
pub fn server_name_result(parsed: Result<ServerName<'static>, InvalidDnsNameError>) -> (res: Result<
    ServerName<'static>,
    PipeError,
>)
    ensures
        res is Ok <==> parsed is Ok,
        res matches Ok(x) ==> (parsed matches Ok(y) && x == y),
        res matches Err(e) ==> e == PipeError::DomainParse,
{
    match parsed {
        Ok(name) => Ok(name),
        Err(_) => Err(PipeError::DomainParse),
    }
}

/// The server name that a TLS connection to `addr` is made for: the parse of
/// the address's host part. An address whose host part is neither a DNS name
/// nor an IP address is refused.
pub fn tls_server_name(addr: &str) -> (res: Result<ServerName<'static>, PipeError>)
    ensures
        res is Ok <==> parsed_server_name(tls_domain_spec(addr@)) is Some,
        res matches Ok(sn) ==> parsed_server_name(tls_domain_spec(addr@)) == Some(sn),
        res matches Err(e) ==> e == PipeError::DomainParse,
{
    let domain = tls_domain(addr);
    server_name_result(server_name_try_from(domain))
}

/// No character of `s` is white space.
pub open spec fn free_of_white_space(s: Seq<char>) -> bool {
    forall|i: int| 0 <= i < s.len() ==> !is_white_space(#[trigger] s[i])
}

proof fn lemma_replace_keeps_free(s: Seq<char>, rep: Seq<char>)
    requires
        free_of_white_space(rep),
    ensures
        free_of_white_space(replace_ws_runs(s, rep)),
    decreases s.len(),
{
    if s.len() > 0 {
        lemma_replace_keeps_free(s.drop_last(), rep);
        let r = replace_ws_runs(s.drop_last(), rep);
        assert forall|i: int| 0 <= i < (r + rep).len() implies !is_white_space(#[trigger] (r + rep)[i]) by {
            if i >= r.len() {
                assert((r + rep)[i] == rep[i - r.len()]);
            }
        }
    }
}

proof fn lemma_replace_of_free(s: Seq<char>, rep: Seq<char>)
    requires
        free_of_white_space(s),
    ensures
        replace_ws_runs(s, rep) == s,
    decreases s.len(),
{
    if s.len() > 0 {
        let init = s.drop_last();
        assert(free_of_white_space(init)) by {
            assert forall|i: int| 0 <= i < init.len() implies !is_white_space(#[trigger] init[i]) by {
                assert(init[i] == s[i]);
            }
        }
        lemma_replace_of_free(init, rep);
        assert(!is_white_space(s[s.len() - 1]));
        assert(init.push(s.last()) =~= s);
    }
}

proof fn lemma_trim_of_free(s: Seq<char>)
    requires
        free_of_white_space(s),
    ensures
        trim_ws(s) == s,
{
    if s.len() > 0 {
        assert(!is_white_space(s[0]));
        assert(!is_white_space(s[s.len() - 1]));
    }
}

/// A normalised address holds no white space.
pub proof fn lemma_trim_addr_free_of_white_space(addr: Seq<char>)
    ensures
        free_of_white_space(trim_addr_spec(addr)),
{
    assert(free_of_white_space(seq![':'])) by {
        assert forall|i: int| 0 <= i < seq![':'].len() implies !is_white_space(#[trigger] seq![':'][i]) by {
            assert(seq![':'][i] == ':');
        }
    }
    lemma_replace_keeps_free(trim_ws(addr), seq![':']);
}

/// Normalising an address a second time changes nothing.
pub proof fn lemma_trim_addr_idempotent(addr: Seq<char>)
    ensures
        trim_addr_spec(trim_addr_spec(addr)) == trim_addr_spec(addr),
{
    let t = trim_addr_spec(addr);
    lemma_trim_addr_free_of_white_space(addr);
    lemma_trim_of_free(t);
    lemma_replace_of_free(t, seq![':']);
}

/// Every character of `s` is white space.
pub open spec fn all_white_space(s: Seq<char>) -> bool {
    forall|i: int| 0 <= i < s.len() ==> is_white_space(#[trigger] s[i])
}

proof fn lemma_replace_append_free(x: Seq<char>, p: Seq<char>, rep: Seq<char>)
    requires
        free_of_white_space(p),
    ensures
        replace_ws_runs(x + p, rep) == replace_ws_runs(x, rep) + p,
    decreases p.len(),
{
    if p.len() == 0 {
        assert(x + p =~= x);
        assert(replace_ws_runs(x, rep) + p =~= replace_ws_runs(x, rep));
    } else {
        let pi = p.drop_last();
        assert(free_of_white_space(pi)) by {
            assert forall|i: int| 0 <= i < pi.len() implies !is_white_space(#[trigger] pi[i]) by {
                assert(pi[i] == p[i]);
            }
        }
        lemma_replace_append_free(x, pi, rep);
        assert((x + p).drop_last() =~= x + pi);
        assert((x + p).last() == p.last());
        assert(!is_white_space(p[p.len() - 1]));
        assert((replace_ws_runs(x, rep) + pi).push(p.last()) =~= replace_ws_runs(x, rep) + p);
    }
}

proof fn lemma_replace_run(h: Seq<char>, w: Seq<char>, rep: Seq<char>)
    requires
        free_of_white_space(h),
        all_white_space(w),
        w.len() > 0,
    ensures
        replace_ws_runs(h + w, rep) == h + rep,
    decreases w.len(),
{
    let wi = w.drop_last();
    assert((h + w).drop_last() =~= h + wi);
    assert((h + w).last() == w[w.len() - 1]);
    assert(is_white_space(w[w.len() - 1]));
    if wi.len() == 0 {
        assert(h + wi =~= h);
        lemma_replace_of_free(h, rep);
        if h.len() > 0 {
            assert(!is_white_space(h[h.len() - 1]));
            assert((h + wi).last() == h.last());
        }
    } else {
        assert(all_white_space(wi)) by {
            assert forall|i: int| 0 <= i < wi.len() implies is_white_space(#[trigger] wi[i]) by {
                assert(wi[i] == w[i]);
            }
        }
        lemma_replace_run(h, wi, rep);
        assert((h + wi).last() == wi[wi.len() - 1]);
        assert(is_white_space(wi[wi.len() - 1]));
    }
}

proof fn lemma_free_concat(a: Seq<char>, b: Seq<char>)
    requires
        free_of_white_space(a),
        free_of_white_space(b),
    ensures
        free_of_white_space(a + b),
{
    assert forall|i: int| 0 <= i < (a + b).len() implies !is_white_space(#[trigger] (a + b)[i]) by {
        if i < a.len() {
            assert((a + b)[i] == a[i]);
        } else {
            assert((a + b)[i] == b[i - a.len()]);
        }
    }
}

/// An address that holds no white space is already normal: it is kept as it
/// is, whatever its length.
pub proof fn lemma_trim_addr_keeps_normal(addr: Seq<char>)
    requires
        free_of_white_space(addr),
    ensures
        trim_addr_spec(addr) == addr,
{
    lemma_trim_of_free(addr);
    lemma_replace_of_free(addr, seq![':']);
}

/// A host and a port written apart, with any white space between and none
/// inside them, become `host:port`.
pub proof fn lemma_trim_addr_host_port(h: Seq<char>, w: Seq<char>, p: Seq<char>)
    requires
        h.len() > 0,
        p.len() > 0,
        free_of_white_space(h),
        free_of_white_space(p),
        w.len() > 0,
        all_white_space(w),
    ensures
        trim_addr_spec(h + w + p) == h + seq![':'] + p,
{
    let s = h + w + p;
    assert(s[0] == h[0]);
    assert(!is_white_space(h[0]));
    assert(s[s.len() - 1] == p[p.len() - 1]);
    assert(!is_white_space(p[p.len() - 1]));
    assert(trim_start_ws(s) == s);
    assert(trim_end_ws(s) == s);
    lemma_replace_append_free(h + w, p, seq![':']);
    lemma_replace_run(h, w, seq![':']);
}

/// The characters kept by normalisation: all but white space and `:`.
pub open spec fn addr_chars(s: Seq<char>) -> Seq<char> {
    s.filter(|c: char| !is_white_space(c) && c != ':')
}

proof fn lemma_addr_chars_push(s: Seq<char>, c: char)
    ensures
        addr_chars(s.push(c)) == if !is_white_space(c) && c != ':' {
            addr_chars(s).push(c)
        } else {
            addr_chars(s)
        },
{
    reveal_with_fuel(Seq::filter, 2);
    assert(s.push(c).drop_last() =~= s);
}

proof fn lemma_addr_chars_add(a: Seq<char>, b: Seq<char>)
    ensures
        addr_chars(a + b) == addr_chars(a) + addr_chars(b),
{
    Seq::filter_distributes_over_add(a, b, |c: char| !is_white_space(c) && c != ':');
}

proof fn lemma_replace_keeps_chars(s: Seq<char>)
    ensures
        addr_chars(replace_ws_runs(s, seq![':'])) == addr_chars(s),
    decreases s.len(),
{
    if s.len() > 0 {
        let init = s.drop_last();
        lemma_replace_keeps_chars(init);
        assert(init.push(s.last()) =~= s);
        lemma_addr_chars_push(init, s.last());
        let r = replace_ws_runs(init, seq![':']);
        if !is_white_space(s.last()) {
            lemma_addr_chars_push(r, s.last());
        } else if init.len() > 0 && is_white_space(init.last()) {
        } else {
            lemma_addr_chars_add(r, seq![':']);
            reveal_with_fuel(Seq::filter, 2);
            assert(addr_chars(seq![':']) =~= Seq::<char>::empty());
            assert(addr_chars(r) + Seq::<char>::empty() =~= addr_chars(r));
        }
    }
}

proof fn lemma_trim_start_keeps_chars(s: Seq<char>)
    ensures
        addr_chars(trim_start_ws(s)) == addr_chars(s),
    decreases s.len(),
{
    if s.len() > 0 && is_white_space(s[0]) {
        lemma_trim_start_keeps_chars(s.drop_first());
        assert(seq![s[0]] + s.drop_first() =~= s);
        lemma_addr_chars_add(seq![s[0]], s.drop_first());
        assert(seq![s[0]] =~= Seq::<char>::empty().push(s[0]));
        lemma_addr_chars_push(Seq::<char>::empty(), s[0]);
        reveal_with_fuel(Seq::filter, 1);
        assert(Seq::<char>::empty() + addr_chars(s.drop_first()) =~= addr_chars(s.drop_first()));
    }
}

proof fn lemma_trim_end_keeps_chars(s: Seq<char>)
    ensures
        addr_chars(trim_end_ws(s)) == addr_chars(s),
    decreases s.len(),
{
    if s.len() > 0 && is_white_space(s.last()) {
        lemma_trim_end_keeps_chars(s.drop_last());
        assert(s.drop_last().push(s.last()) =~= s);
        lemma_addr_chars_push(s.drop_last(), s.last());
    }
}

/// Normalisation loses and adds nothing but white space and `:`: the other
/// characters of an address come out all, in their order.
pub proof fn lemma_trim_addr_keeps_chars(addr: Seq<char>)
    ensures
        addr_chars(trim_addr_spec(addr)) == addr_chars(addr),
{
    lemma_trim_start_keeps_chars(addr);
    lemma_trim_end_keeps_chars(trim_start_ws(addr));
    lemma_replace_keeps_chars(trim_ws(addr));
}

/// The server name of a TLS connection to `host:port` is the whole host,
/// when the host holds neither `:` nor white space.
pub proof fn lemma_tls_domain_host_colon_port(h: Seq<char>, p: Seq<char>)
    requires
        free_of_white_space(h),
        free_of_white_space(p),
        !h.contains(':'),
    ensures
        tls_domain_spec(h + seq![':'] + p) == h,
{
    let s = h + seq![':'] + p;
    assert(free_of_white_space(seq![':'])) by {
        assert forall|i: int| 0 <= i < seq![':'].len() implies !is_white_space(#[trigger] seq![':'][i]) by {
            assert(seq![':'][i] == ':');
        }
    }
    lemma_free_concat(h, seq![':']);
    lemma_free_concat(h + seq![':'], p);
    lemma_trim_addr_keeps_normal(s);
    lemma_before_first_split(h, p, ':');
}

/// The server name of a TLS connection to `host port` (white space between)
/// is the whole host.
pub proof fn lemma_tls_domain_host_space_port(h: Seq<char>, w: Seq<char>, p: Seq<char>)
    requires
        h.len() > 0,
        p.len() > 0,
        free_of_white_space(h),
        free_of_white_space(p),
        !h.contains(':'),
        w.len() > 0,
        all_white_space(w),
    ensures
        tls_domain_spec(h + w + p) == h,
{
    lemma_trim_addr_host_port(h, w, p);
    lemma_before_first_split(h, p, ':');
}

/// The server name of a TLS connection to an address without a port is the
/// whole (trimmed) address.
pub proof fn lemma_tls_domain_host_only(h: Seq<char>)
    requires
        free_of_white_space(h),
        !h.contains(':'),
    ensures
        tls_domain_spec(h) == h,
{
    lemma_trim_addr_keeps_normal(h);
    lemma_before_first_absent(h, ':');
}

} // verus!
