//! What the ways of writing an identifier are read as.
use crate::api::laws::law_arxiv_id_reads_back;
use crate::api::laws::law_doi_reads_back;
use crate::api::laws::law_pmid_reads_back;
use crate::api::laws::lemma_no_prefix;
use crate::api::laws::lemma_not_found;
use crate::api::resolve::after_either;
use crate::api::resolve::doi_of_url;
use crate::api::resolve::identified;
use crate::api::resolve::is_arxiv_id;
use crate::api::resolve::is_isbn10;
use crate::api::resolve::is_isbn13;
use crate::api::resolve::is_pmid;
use crate::api::resolve::isbn10_sum;
use crate::api::resolve::isbn13_sum;
use crate::api::resolve::isbn_core;
use crate::api::resolve::isbn_of;
use crate::api::resolve::isbn_value;
use crate::api::resolve::without_version;
use crate::api::resolve::IdentifierErrorView;
use crate::api::resolve::IdentifierView;
use crate::text::all_ascii;
use crate::text::all_digits;
use crate::text::ascii_lower;
use crate::text::found_from;
use crate::text::is_digit;
use crate::text::is_white;
use crate::text::last_index_of;
use crate::text::lowercase;
use crate::text::trimmed;
use crate::text::without_suffixes;
use crate::text_laws::law_found_is_first;
use crate::text_laws::law_trim_takes_whitespace;
use crate::text_laws::law_trim_twice;
use crate::text_laws::law_trimmed_stays;
use vstd::prelude::*;

verus! {

/// The outcome of reading an identifier.
type Reading = Result<IdentifierView, IdentifierErrorView>;

/// A trimmed text neither starts nor ends with whitespace.
pub proof fn lemma_ends(d: Seq<char>)
    requires
        trimmed(d) == d,
    ensures
        d.len() > 0 ==> !is_white(d[0]) && !is_white(d.last()),
{
    let r = law_trim_takes_whitespace(d);
}

proof fn lemma_joined_ends(p: Seq<char>, d: Seq<char>)
    requires
        p.len() > 0,
        !is_white(p[0]),
        !is_white(p.last()),
        d.len() > 0 ==> !is_white(d.last()),
    ensures
        !is_white((p + d)[0]),
        !is_white((p + d).last()),
        (p + d).len() > 0,
{
    if d.len() > 0 {
        assert((p + d).last() == d.last());
    } else {
        assert((p + d).last() == p.last());
    }
}

proof fn lemma_prefixed(p: Seq<char>, d: Seq<char>)
    requires
        p.len() > 0,
        !is_white(p[0]),
        !is_white(p.last()),
        trimmed(d) == d,
    ensures
        trimmed(p + d) == p + d,
        p.is_prefix_of(p + d),
        (p + d).skip(p.len() as int) == d,
{
    lemma_ends(d);
    lemma_joined_ends(p, d);
    law_trimmed_stays(p + d);
    assert((p + d).subrange(0, p.len() as int) =~= p);
    assert((p + d).skip(p.len() as int) =~= d);
}

/// A text that differs from another at one of its places does not start with it.
proof fn lemma_differs(s: Seq<char>, q: Seq<char>, i: int)
    requires
        0 <= i < q.len(),
        i < s.len() ==> s[i] != q[i],
    ensures
        !q.is_prefix_of(s),
{
    if q.is_prefix_of(s) {
        assert(s.subrange(0, q.len() as int)[i] == s[i]);
    }
}

/// A text that is not behind a prefix is not in the whole either, where it starts with none of the
/// characters of the prefix.
proof fn lemma_not_in_prefixed(p: Seq<char>, d: Seq<char>, q: Seq<char>)
    requires
        q.len() > 0,
        forall|i: int| 0 <= i < p.len() ==> #[trigger] p[i] != q[0],
        found_from(d, q, 0) is None,
    ensures
        found_from(p + d, q, 0) is None,
{
    let s = p + d;
    law_found_is_first(d, q, 0);
    law_found_is_first(s, q, 0);
    if let Some(i) = found_from(s, q, 0) {
        assert(s.subrange(i, i + q.len())[0] == s[i]);
        if i < p.len() {
            assert(s[i] == p[i]);
        } else {
            let k = i - p.len();
            assert(d.subrange(k, k + q.len()) =~= s.subrange(i, i + q.len()));
        }
    }
}

proof fn lemma_no_doi_url(s: Seq<char>)
    requires
        s.len() > 0 ==> s[0] != 'h',
    ensures
        !"https://doi.org/"@.is_prefix_of(s),
        !"http://doi.org/"@.is_prefix_of(s),
        !"https://dx.doi.org/"@.is_prefix_of(s),
        !"http://dx.doi.org/"@.is_prefix_of(s),
{
    reveal_strlit("https://doi.org/");
    reveal_strlit("http://doi.org/");
    reveal_strlit("https://dx.doi.org/");
    reveal_strlit("http://dx.doi.org/");
    lemma_no_prefix(s, "https://doi.org/"@);
    lemma_no_prefix(s, "http://doi.org/"@);
    lemma_no_prefix(s, "https://dx.doi.org/"@);
    lemma_no_prefix(s, "http://dx.doi.org/"@);
}

/// What stands behind `doi:` or `DOI:` is a DOI, unless it holds the address of arxiv.org.
pub proof fn law_prefixed_doi(d: Seq<char>)
    requires
        trimmed(d) == d,
        found_from(d, "arxiv.org/"@, 0) is None,
    ensures
        identified("doi:"@ + d) == Reading::Ok(IdentifierView::Doi(d)),
        identified("DOI:"@ + d) == Reading::Ok(IdentifierView::Doi(d)),
{
    reveal_strlit("doi:");
    reveal_strlit("DOI:");
    reveal_strlit("arxiv.org/");
    lemma_prefixed("doi:"@, d);
    lemma_prefixed("DOI:"@, d);
    lemma_no_doi_url("doi:"@ + d);
    lemma_no_doi_url("DOI:"@ + d);
    lemma_not_in_prefixed("doi:"@, d, "arxiv.org/"@);
    lemma_not_in_prefixed("DOI:"@, d, "arxiv.org/"@);
    lemma_differs("DOI:"@ + d, "doi:"@, 0);
    law_trim_twice(d);
}

/// A DOI is the same identifier with a prefix as without one.
pub proof fn law_doi_prefix_makes_no_difference(doi: Seq<char>)
    requires
        trimmed(doi) == doi,
        "10."@.is_prefix_of(doi),
        doi.contains('/'),
        found_from(doi, "arxiv.org/"@, 0) is None,
        lowercase(doi).len() > 0,
        lowercase(doi)[0] == '1',
    ensures
        identified("doi:"@ + doi) == identified(doi),
        identified("DOI:"@ + doi) == identified(doi),
        identified("https://doi.org/"@ + doi) == identified(doi),
        identified("http://dx.doi.org/"@ + doi) == identified(doi),
{
    law_prefixed_doi(doi);
    law_doi_url(doi);
    law_doi_reads_back(doi);
}

/// What stands behind the address of doi.org, with or without `dx.` and over HTTP or HTTPS, is a DOI.
pub proof fn law_doi_url(d: Seq<char>)
    requires
        trimmed(d) == d,
    ensures
        identified("https://doi.org/"@ + d) == Reading::Ok(IdentifierView::Doi(d)),
        identified("http://doi.org/"@ + d) == Reading::Ok(IdentifierView::Doi(d)),
        identified("https://dx.doi.org/"@ + d) == Reading::Ok(IdentifierView::Doi(d)),
        identified("http://dx.doi.org/"@ + d) == Reading::Ok(IdentifierView::Doi(d)),
{
    let a = "https://doi.org/"@;
    let b = "http://doi.org/"@;
    let c = "https://dx.doi.org/"@;
    let e = "http://dx.doi.org/"@;
    reveal_strlit("https://doi.org/");
    reveal_strlit("http://doi.org/");
    reveal_strlit("https://dx.doi.org/");
    reveal_strlit("http://dx.doi.org/");
    lemma_prefixed(a, d);
    lemma_prefixed(b, d);
    lemma_prefixed(c, d);
    lemma_prefixed(e, d);
    lemma_differs(b + d, a, 4);
    lemma_differs(c + d, a, 9);
    lemma_differs(c + d, b, 4);
    lemma_differs(e + d, a, 4);
    lemma_differs(e + d, b, 8);
    lemma_differs(e + d, c, 4);
}

proof fn lemma_lower_prefixed(p: Seq<char>, low: Seq<char>, d: Seq<char>)
    requires
        all_ascii(p),
        all_ascii(d),
        lowercase(p) == low,
    ensures
        lowercase(p + d) == low + lowercase(d),
        low.is_prefix_of(lowercase(p + d)),
        lowercase(p + d).skip(low.len() as int) == lowercase(d),
{
    let s = p + d;
    assert(all_ascii(s)) by {
        assert forall|i: int| 0 <= i < s.len() implies (#[trigger] s[i]) as u32 <= 127 by {
            if i < p.len() {
                assert(s[i] == p[i]);
            } else {
                assert(s[i] == d[i - p.len()]);
            }
        }
    }
    assert(low.len() == p.len());
    assert(lowercase(s) =~= low + lowercase(d)) by {
        assert forall|i: int| 0 <= i < s.len() implies lowercase(s)[i] == (low + lowercase(d))[i] by {
            if i < p.len() {
                assert(low[i] == ascii_lower(p[i]));
            } else {
                assert(lowercase(d)[i - p.len()] == ascii_lower(d[i - p.len()]));
            }
        }
    }
    assert(lowercase(s).subrange(0, low.len() as int) =~= low);
    assert(lowercase(s).skip(low.len() as int) =~= lowercase(d));
}

proof fn lemma_lower_trimmed(d: Seq<char>)
    requires
        all_ascii(d),
        trimmed(d) == d,
    ensures
        trimmed(lowercase(d)) == lowercase(d),
{
    let r = law_trim_takes_whitespace(d);
    let low = lowercase(d);
    if d.len() > 0 {
        assert(low[0] == ascii_lower(d[0]));
        assert(low.last() == ascii_lower(d.last()));
    }
    law_trimmed_stays(low);
}

proof fn lemma_not_doi(s: Seq<char>)
    requires
        s.len() > 0 ==> s[0] != 'h' && s[0] != 'd' && s[0] != 'D',
    ensures
        !"doi:"@.is_prefix_of(s),
        !"DOI:"@.is_prefix_of(s),
{
    reveal_strlit("doi:");
    reveal_strlit("DOI:");
    lemma_no_prefix(s, "doi:"@);
    lemma_no_prefix(s, "DOI:"@);
}

proof fn lemma_arxiv_prefix(p: Seq<char>, id: Seq<char>)
    requires
        all_ascii(id),
        trimmed(id) == id,
        found_from(p + id, "arxiv.org/"@, 0) is None,
        p == "arXiv:"@ || p == "arxiv:"@ || p == "ARXIV:"@,
    ensures
        identified(p + id) == Reading::Ok(IdentifierView::Arxiv(without_version(lowercase(id)))),
{
    reveal_strlit("arXiv:");
    reveal_strlit("arxiv:");
    reveal_strlit("ARXIV:");
    reveal_strlit("arxiv.org/");
    assert(all_ascii(p));
    assert(lowercase(p) =~= "arxiv:"@);
    lemma_prefixed(p, id);
    lemma_no_doi_url(p + id);
    lemma_not_doi(p + id);
    lemma_lower_prefixed(p, "arxiv:"@, id);
    lemma_lower_trimmed(id);
    law_trim_twice(lowercase(id));
}

/// What stands behind `arXiv:`, however it is capitalised, is an arXiv ID, the old ones with a slash
/// included.
pub proof fn law_prefixed_arxiv(id: Seq<char>)
    requires
        all_ascii(id),
        trimmed(id) == id,
        lowercase(id) == id,
        without_version(id) == id,
        found_from(id, "arxiv.org/"@, 0) is None,
    ensures
        identified("arXiv:"@ + id) == Reading::Ok(IdentifierView::Arxiv(id)),
        identified("arxiv:"@ + id) == Reading::Ok(IdentifierView::Arxiv(id)),
        identified("ARXIV:"@ + id) == Reading::Ok(IdentifierView::Arxiv(id)),
{
    lemma_arxiv_not_found("arXiv:"@, id);
    lemma_arxiv_not_found("arxiv:"@, id);
    lemma_arxiv_not_found("ARXIV:"@, id);
    lemma_arxiv_prefix("arXiv:"@, id);
    lemma_arxiv_prefix("arxiv:"@, id);
    lemma_arxiv_prefix("ARXIV:"@, id);
}

proof fn lemma_arxiv_not_found(p: Seq<char>, id: Seq<char>)
    requires
        p == "arXiv:"@ || p == "arxiv:"@ || p == "ARXIV:"@,
        found_from(id, "arxiv.org/"@, 0) is None,
    ensures
        found_from(p + id, "arxiv.org/"@, 0) is None,
{
    reveal_strlit("arXiv:");
    reveal_strlit("arxiv:");
    reveal_strlit("ARXIV:");
    reveal_strlit("arxiv.org/");
    let q = "arxiv.org/"@;
    let s = p + id;
    law_found_is_first(id, q, 0);
    law_found_is_first(s, q, 0);
    if let Some(i) = found_from(s, q, 0) {
        assert(s.subrange(i, i + q.len())[0] == s[i]);
        assert(s.subrange(i, i + q.len())[5] == s[i + 5]);
        if i < p.len() {
            assert(s[i] == p[i]);
            assert(i == 0);
            assert(s[5] == p[5]);
        } else {
            let k = i - p.len();
            assert(id.subrange(k, k + q.len()) =~= s.subrange(i, i + q.len()));
        }
    }
}

/// The characters of a new-style arXiv ID without a version.
proof fn lemma_core_chars(id: Seq<char>)
    requires
        is_arxiv_id(id),
        without_version(id) == id,
    ensures
        id.len() == 9 || id.len() == 10,
        all_ascii(id),
        trimmed(id) == id,
        lowercase(id) == id,
        forall|k: int| 0 <= k < id.len() ==> is_digit(#[trigger] id[k]) || id[k] == '.',
        is_digit(id.last()),
        is_digit(id[0]),
{
    assert forall|k: int| 0 <= k < id.len() implies is_digit(#[trigger] id[k]) || id[k] == '.' by {
        assert(k == 4 || is_digit(id[k]));
    }
    assert(is_digit(id[id.len() - 1]));
    assert(is_digit(id[0]));
    law_trimmed_stays(id);
    assert(lowercase(id) =~= id);
}

/// A new-style arXiv ID is the same identifier with the prefix `arXiv:` as without one.
pub proof fn law_arxiv_prefix_makes_no_difference(id: Seq<char>)
    requires
        is_arxiv_id(id),
        without_version(id) == id,
    ensures
        identified("arXiv:"@ + id) == identified(id),
        identified(id) == Reading::Ok(IdentifierView::Arxiv(id)),
{
    reveal_strlit("arxiv.org/");
    lemma_core_chars(id);
    lemma_not_found(id, "arxiv.org/"@, 0);
    law_arxiv_id_reads_back(id);
    law_prefixed_arxiv(id);
}

proof fn lemma_last_v(id: Seq<char>, n: Seq<char>)
    requires
        all_digits(n),
    ensures
        last_index_of(id.push('v') + n, 'v') == id.len(),
    decreases n.len(),
{
    let s = id.push('v') + n;
    if n.len() > 0 {
        assert(is_digit(n[n.len() - 1]));
        assert(s.drop_last() =~= id.push('v') + n.drop_last());
        assert forall|i: int| 0 <= i < n.drop_last().len() implies is_digit(
            #[trigger] n.drop_last()[i],
        ) by {
            assert(n.drop_last()[i] == n[i]);
        }
        lemma_last_v(id, n.drop_last());
    } else {
        assert(s =~= id.push('v'));
    }
}

/// The version at the end of an arXiv ID, `v` and a number, is dropped.
pub proof fn law_version_is_dropped(id: Seq<char>, n: Seq<char>)
    requires
        id.len() > 0,
        n.len() > 0,
        all_digits(n),
    ensures
        without_version(id.push('v') + n) == id,
{
    let s = id.push('v') + n;
    lemma_last_v(id, n);
    assert(s.skip(id.len() as int + 1) =~= n);
    assert(s.take(id.len() as int) =~= id);
}

/// A new-style arXiv ID: four digits, a point, and four or five digits.
pub proof fn law_arxiv_id_shape(id: Seq<char>)
    requires
        id.len() == 9 || id.len() == 10,
        id[4] == '.',
        forall|i: int| 0 <= i < id.len() && i != 4 ==> is_digit(#[trigger] id[i]),
    ensures
        is_arxiv_id(id),
        without_version(id) == id,
        identified(id) == Reading::Ok(IdentifierView::Arxiv(id)),
{
    lemma_no_v(id);
    law_arxiv_prefix_makes_no_difference(id);
}

proof fn lemma_no_v(s: Seq<char>)
    requires
        forall|i: int| 0 <= i < s.len() ==> is_digit(#[trigger] s[i]) || s[i] == '.',
    ensures
        last_index_of(s, 'v') == -1,
        without_version(s) == s,
    decreases s.len(),
{
    if s.len() > 0 {
        let t = s.drop_last();
        assert(is_digit(s[s.len() - 1]) || s[s.len() - 1] == '.');
        assert forall|i: int| 0 <= i < t.len() implies is_digit(#[trigger] t[i]) || t[i] == '.' by {
            assert(t[i] == s[i]);
        }
        lemma_no_v(t);
    }
}

/// The address of a paper on arxiv.org, of its abstract or of its PDF, is read as the paper's ID.
pub proof fn law_arxiv_url(id: Seq<char>)
    requires
        id.len() == 9 || id.len() == 10,
        id[4] == '.',
        forall|i: int| 0 <= i < id.len() && i != 4 ==> is_digit(#[trigger] id[i]),
    ensures
        identified("https://arxiv.org/abs/"@ + id) == Reading::Ok(IdentifierView::Arxiv(id)),
        identified("http://arxiv.org/abs/"@ + id) == Reading::Ok(IdentifierView::Arxiv(id)),
        identified("arxiv.org/abs/"@ + id) == Reading::Ok(IdentifierView::Arxiv(id)),
        identified("https://arxiv.org/pdf/"@ + id) == Reading::Ok(IdentifierView::Arxiv(id)),
        identified("https://arxiv.org/pdf/"@ + id + ".pdf"@) == Reading::Ok(
            IdentifierView::Arxiv(id),
        ),
{
    lemma_arxiv_url("https://"@, "abs/"@, id, id);
    lemma_arxiv_url("http://"@, "abs/"@, id, id);
    lemma_arxiv_url(Seq::empty(), "abs/"@, id, id);
    lemma_arxiv_url("https://"@, "pdf/"@, id, id);
    lemma_arxiv_url("https://"@, "pdf/"@, id, id + ".pdf"@);
    lemma_arxiv_addresses(id);
}

/// The addresses in their parts.
proof fn lemma_arxiv_addresses(id: Seq<char>)
    ensures
        "https://arxiv.org/abs/"@ + id == "https://"@ + "arxiv.org/"@ + ("abs/"@ + id),
        "http://arxiv.org/abs/"@ + id == "http://"@ + "arxiv.org/"@ + ("abs/"@ + id),
        "arxiv.org/abs/"@ + id == Seq::<char>::empty() + "arxiv.org/"@ + ("abs/"@ + id),
        "https://arxiv.org/pdf/"@ + id == "https://"@ + "arxiv.org/"@ + ("pdf/"@ + id),
        "https://arxiv.org/pdf/"@ + id + ".pdf"@ == "https://"@ + "arxiv.org/"@ + ("pdf/"@ + (id
            + ".pdf"@)),
{
    reveal_strlit("https://arxiv.org/abs/");
    reveal_strlit("http://arxiv.org/abs/");
    reveal_strlit("arxiv.org/abs/");
    reveal_strlit("https://arxiv.org/pdf/");
    reveal_strlit("https://");
    reveal_strlit("http://");
    reveal_strlit("arxiv.org/");
    reveal_strlit("abs/");
    reveal_strlit("pdf/");
    reveal_strlit(".pdf");
    let q = "arxiv.org/"@;
    assert("https://arxiv.org/abs/"@ + id =~= "https://"@ + q + ("abs/"@ + id));
    assert("http://arxiv.org/abs/"@ + id =~= "http://"@ + q + ("abs/"@ + id));
    assert("arxiv.org/abs/"@ + id =~= Seq::<char>::empty() + q + ("abs/"@ + id));
    assert("https://arxiv.org/pdf/"@ + id =~= "https://"@ + q + ("pdf/"@ + id));
    assert("https://arxiv.org/pdf/"@ + id + ".pdf"@ =~= "https://"@ + q + ("pdf/"@ + (id
        + ".pdf"@)));
}

proof fn lemma_arxiv_url(h: Seq<char>, kind: Seq<char>, id: Seq<char>, path: Seq<char>)
    requires
        id.len() == 9 || id.len() == 10,
        id[4] == '.',
        forall|i: int| 0 <= i < id.len() && i != 4 ==> is_digit(#[trigger] id[i]),
        h == "https://"@ || h == "http://"@ || h.len() == 0,
        kind == "abs/"@ || kind == "pdf/"@,
        path == id || path == id + ".pdf"@,
    ensures
        identified(h + "arxiv.org/"@ + (kind + path)) == Reading::Ok(IdentifierView::Arxiv(id)),
{
    let s = h + "arxiv.org/"@ + (kind + path);
    lemma_no_v(id);
    lemma_arxiv_host(h, kind + path);
    lemma_arxiv_path(kind, id, path);
    assert(s.skip(h.len() as int + "arxiv.org/"@.len()) =~= kind + path);
    assert(is_digit(id[id.len() - 1]));
    assert(!is_white(s.last())) by {
        reveal_strlit(".pdf");
        assert(s.last() == path.last());
        if path != id {
            assert(path.last() == 'f');
        }
    }
    law_trimmed_stays(s);
}

/// A text is found behind what holds none of its first characters.
proof fn lemma_found_behind(h: Seq<char>, q: Seq<char>, rest: Seq<char>)
    requires
        q.len() > 0,
        forall|i: int| 0 <= i < h.len() ==> #[trigger] h[i] != q[0],
    ensures
        found_from(h + q + rest, q, 0) == Some(h.len() as int),
{
    let s = h + q + rest;
    let n = h.len() as int;
    assert(s.subrange(n, n + q.len()) =~= q);
    assert forall|k: int| 0 <= k < n implies #[trigger] s[k] != q[0] by {
        assert(s[k] == h[k]);
    }
    lemma_found_at(s, q, 0, n);
}

proof fn lemma_found_at(s: Seq<char>, q: Seq<char>, from: int, n: int)
    requires
        q.len() > 0,
        0 <= from <= n,
        n + q.len() <= s.len(),
        s.subrange(n, n + q.len()) == q,
        forall|k: int| from <= k < n ==> #[trigger] s[k] != q[0],
    ensures
        found_from(s, q, from) == Some(n),
    decreases n - from,
{
    if from < n {
        assert(s.subrange(from, from + q.len())[0] == s[from]);
        lemma_found_at(s, q, from + 1, n);
    }
}

/// Where the host of such an address is found, and that it is not doi.org.
proof fn lemma_arxiv_host(h: Seq<char>, rest: Seq<char>)
    requires
        h == "https://"@ || h == "http://"@ || h.len() == 0,
    ensures
        ({
            let s = h + "arxiv.org/"@ + rest;
            &&& found_from(s, "arxiv.org/"@, 0) == Some(h.len() as int)
            &&& doi_of_url(s) is None
            &&& !is_white(s[0])
        }),
{
    let s = h + "arxiv.org/"@ + rest;
    assert(s.len() > h.len() && s[h.len() as int] == 'a') by {
        reveal_strlit("arxiv.org/");
    }
    assert("arxiv.org/"@.len() == 10 && "arxiv.org/"@[0] == 'a') by {
        reveal_strlit("arxiv.org/");
    }
    if h.len() == 0 {
        lemma_no_doi_url(s);
    } else if h == "https://"@ {
        reveal_strlit("https://");
        lemma_no_doi_at(s, 8);
    } else {
        reveal_strlit("http://");
        lemma_no_doi_at(s, 7);
    }
    lemma_found_behind(h, "arxiv.org/"@, rest);
}

/// An address over HTTP or HTTPS whose host starts with another letter is none of doi.org.
proof fn lemma_no_doi_at(s: Seq<char>, n: int)
    requires
        s.len() > n,
        s[n] == 'a',
        n == 8 && s[4] == 's' || n == 7 && s[4] == ':',
    ensures
        doi_of_url(s) is None,
{
    reveal_strlit("https://doi.org/");
    reveal_strlit("http://doi.org/");
    reveal_strlit("https://dx.doi.org/");
    reveal_strlit("http://dx.doi.org/");
    if n == 8 {
        lemma_differs(s, "https://doi.org/"@, 8);
        lemma_differs(s, "http://doi.org/"@, 4);
        lemma_differs(s, "https://dx.doi.org/"@, 8);
        lemma_differs(s, "http://dx.doi.org/"@, 4);
    } else {
        lemma_differs(s, "https://doi.org/"@, 4);
        lemma_differs(s, "http://doi.org/"@, 7);
        lemma_differs(s, "https://dx.doi.org/"@, 4);
        lemma_differs(s, "http://dx.doi.org/"@, 7);
    }
}

/// The paper that the path of such an address names.
proof fn lemma_arxiv_path(kind: Seq<char>, id: Seq<char>, path: Seq<char>)
    requires
        id.len() > 0,
        is_digit(id.last()),
        kind == "abs/"@ || kind == "pdf/"@,
        path == id || path == id + ".pdf"@,
    ensures
        ({
            let rest = kind + path;
            let found = match after_either(rest, "abs/"@, "pdf/"@) {
                Some(p) => p,
                None => rest,
            };
            without_suffixes(without_suffixes(found, ".pdf"@), "/"@) == id
        }),
{
    reveal_strlit("abs/");
    reveal_strlit("pdf/");
    reveal_strlit(".pdf");
    let rest = kind + path;
    assert(rest.subrange(0, kind.len() as int) =~= kind);
    assert(rest.skip(kind.len() as int) =~= path);
    if kind == "pdf/"@ {
        lemma_differs(rest, "abs/"@, 0);
    }
    lemma_no_suffix(id, ".pdf"@);
    lemma_no_suffix(id, "/"@);
    if path != id {
        assert(path.skip(path.len() - 4) =~= ".pdf"@);
        assert(path.take(path.len() - 4) =~= id);
    }
}

proof fn lemma_no_suffix(id: Seq<char>, p: Seq<char>)
    requires
        id.len() > 0,
        is_digit(id.last()),
        p == ".pdf"@ || p == "/"@,
    ensures
        without_suffixes(id, p) == id,
{
    reveal_strlit(".pdf");
    reveal_strlit("/");
    if 0 < p.len() <= id.len() && id.skip(id.len() - p.len()) == p {
        assert(id.skip(id.len() - p.len()).last() == id.last());
    }
}

/// A PubMed ID is the same identifier behind `PMID:` or `PubMed:`, however they are capitalised, as
/// on its own.
pub proof fn law_pmid_prefix_makes_no_difference(pmid: Seq<char>)
    requires
        0 < pmid.len() <= 9,
        pmid[0] != '0',
        all_digits(pmid),
    ensures
        identified("PMID:"@ + pmid) == Reading::Ok(IdentifierView::Pmid(pmid)),
        identified("pmid:"@ + pmid) == Reading::Ok(IdentifierView::Pmid(pmid)),
        identified("PubMed:"@ + pmid) == Reading::Ok(IdentifierView::Pmid(pmid)),
        identified("pubmed:"@ + pmid) == Reading::Ok(IdentifierView::Pmid(pmid)),
        identified(pmid) == Reading::Ok(IdentifierView::Pmid(pmid)),
{
    law_pmid_reads_back(pmid);
    lemma_digits_plain(pmid);
    lemma_pmid_prefix("PMID:"@, pmid);
    lemma_pmid_prefix("pmid:"@, pmid);
    lemma_pmid_prefix("PubMed:"@, pmid);
    lemma_pmid_prefix("pubmed:"@, pmid);
}

proof fn lemma_digits_plain(d: Seq<char>)
    requires
        all_digits(d),
    ensures
        all_ascii(d),
        trimmed(d) == d,
        lowercase(d) == d,
        found_from(d, "arxiv.org/"@, 0) is None,
{
    reveal_strlit("arxiv.org/");
    assert forall|i: int| 0 <= i < d.len() implies (#[trigger] d[i]) as u32 <= 127 by {
        assert(is_digit(d[i]));
    }
    if d.len() > 0 {
        assert(is_digit(d[0]) && is_digit(d[d.len() - 1]));
    }
    law_trimmed_stays(d);
    assert(lowercase(d) =~= d) by {
        assert forall|i: int| 0 <= i < d.len() implies lowercase(d)[i] == d[i] by {
            assert(is_digit(d[i]));
        }
    }
    assert forall|k: int| 0 <= k < d.len() implies #[trigger] d[k] != 'a' by {
        assert(is_digit(d[k]));
    }
    lemma_not_found(d, "arxiv.org/"@, 0);
}

proof fn lemma_pmid_prefix(p: Seq<char>, raw: Seq<char>)
    requires
        p == "PMID:"@ || p == "pmid:"@ || p == "PubMed:"@ || p == "pubmed:"@,
        all_ascii(raw),
        trimmed(raw) == raw,
        lowercase(raw) == raw,
        found_from(raw, "arxiv.org/"@, 0) is None,
    ensures
        identified(p + raw) == if is_pmid(raw) {
            Reading::Ok(IdentifierView::Pmid(raw))
        } else {
            Reading::Err(IdentifierErrorView::Pmid(raw))
        },
{
    reveal_strlit("PMID:");
    reveal_strlit("pmid:");
    reveal_strlit("PubMed:");
    reveal_strlit("pubmed:");
    reveal_strlit("arxiv.org/");
    reveal_strlit("arxiv:");
    reveal_strlit("isbn:");
    let low = if p.len() == 5 {
        "pmid:"@
    } else {
        "pubmed:"@
    };
    assert(lowercase(p) =~= low);
    lemma_prefixed(p, raw);
    lemma_no_doi_url(p + raw);
    lemma_not_doi(p + raw);
    lemma_not_in_prefixed(p, raw, "arxiv.org/"@);
    lemma_lower_prefixed(p, low, raw);
    let lower = lowercase(p + raw);
    assert(lower[0] == 'p' && lower[1] == low[1]);
    lemma_no_prefix(lower, "arxiv:"@);
    lemma_no_prefix(lower, "isbn:"@);
    if p.len() == 7 {
        lemma_differs(lower, "pmid:"@, 1);
    }
}

/// What stands behind `PMID:` or `PubMed:` and is no plain number of up to nine digits without a zero
/// in front is refused as a PubMed ID, and quoted.
pub proof fn law_bad_pmid_is_refused(raw: Seq<char>)
    requires
        all_ascii(raw),
        trimmed(raw) == raw,
        lowercase(raw) == raw,
        found_from(raw, "arxiv.org/"@, 0) is None,
        raw.len() == 0 || raw.len() > 9 || raw[0] == '0' || exists|i: int|
            0 <= i < raw.len() && !is_digit(#[trigger] raw[i]),
    ensures
        identified("PMID:"@ + raw) == Reading::Err(IdentifierErrorView::Pmid(raw)),
        identified("PubMed:"@ + raw) == Reading::Err(IdentifierErrorView::Pmid(raw)),
{
    lemma_pmid_prefix("PMID:"@, raw);
    lemma_pmid_prefix("PubMed:"@, raw);
}

proof fn lemma_isbn_prefix(p: Seq<char>, raw: Seq<char>)
    requires
        p == "ISBN:"@ || p == "isbn:"@,
        all_ascii(raw),
        trimmed(raw) == raw,
        found_from(raw, "arxiv.org/"@, 0) is None,
    ensures
        identified(p + raw) == match isbn_of(lowercase(raw)) {
            Some(isbn) => Reading::Ok(IdentifierView::Isbn(isbn)),
            None => Reading::Err(IdentifierErrorView::Isbn(lowercase(raw))),
        },
{
    reveal_strlit("ISBN:");
    reveal_strlit("isbn:");
    reveal_strlit("arxiv.org/");
    reveal_strlit("arxiv:");
    assert(lowercase(p) =~= "isbn:"@);
    lemma_prefixed(p, raw);
    lemma_no_doi_url(p + raw);
    lemma_not_doi(p + raw);
    lemma_not_in_prefixed(p, raw, "arxiv.org/"@);
    lemma_lower_prefixed(p, "isbn:"@, raw);
    lemma_lower_trimmed(raw);
    lemma_no_prefix(lowercase(p + raw), "arxiv:"@);
}

/// The characters that an ISBN is written with.
pub open spec fn isbn_written(s: Seq<char>) -> bool {
    forall|i: int|
        0 <= i < s.len() ==> is_digit(#[trigger] s[i]) || s[i] == 'X' || s[i] == 'x' || s[i] == '-'
            || s[i] == ' '
}

proof fn lemma_core_lower(s: Seq<char>)
    requires
        isbn_written(s),
    ensures
        all_ascii(s),
        isbn_core(lowercase(s)) == isbn_core(s),
    decreases s.len(),
{
    assert forall|i: int| 0 <= i < s.len() implies (#[trigger] s[i]) as u32 <= 127 by {
        assert(is_digit(s[i]) || s[i] == 'X' || s[i] == 'x' || s[i] == '-' || s[i] == ' ');
    }
    if s.len() > 0 {
        let t = s.drop_last();
        assert forall|i: int| 0 <= i < t.len() implies is_digit(#[trigger] t[i]) || t[i] == 'X'
            || t[i] == 'x' || t[i] == '-' || t[i] == ' ' by {
            assert(t[i] == s[i]);
        }
        lemma_core_lower(t);
        assert(lowercase(s).drop_last() =~= lowercase(t));
        let c = s[s.len() - 1];
        assert(is_digit(c) || c == 'X' || c == 'x' || c == '-' || c == ' ');
        assert(lowercase(s).last() == ascii_lower(c));
    } else {
        assert(lowercase(s) =~= s);
    }
}

/// An ISBN is the same identifier behind `ISBN:` as on its own, with hyphens and spaces or without,
/// and in either case of its `X`.
pub proof fn law_isbn_prefix_makes_no_difference(s: Seq<char>)
    requires
        isbn_written(s),
        trimmed(s) == s,
        isbn_of(s) is Some,
    ensures
        identified("ISBN:"@ + s) == Reading::Ok(IdentifierView::Isbn(isbn_of(s).unwrap())),
        identified("isbn:"@ + s) == Reading::Ok(IdentifierView::Isbn(isbn_of(s).unwrap())),
        identified(s) == Reading::Ok(IdentifierView::Isbn(isbn_of(s).unwrap())),
{
    reveal_strlit("arxiv.org/");
    reveal_strlit("arxiv:");
    reveal_strlit("isbn:");
    reveal_strlit("pmid:");
    reveal_strlit("pubmed:");
    reveal_strlit("10.");
    lemma_core_lower(s);
    assert forall|k: int| 0 <= k < s.len() implies #[trigger] s[k] != 'a' && s[k] != '/' && s[k]
        != '.' by {
        assert(is_digit(s[k]) || s[k] == 'X' || s[k] == 'x' || s[k] == '-' || s[k] == ' ');
    }
    lemma_not_found(s, "arxiv.org/"@, 0);
    lemma_isbn_prefix("ISBN:"@, s);
    lemma_isbn_prefix("isbn:"@, s);
    if s.len() == 0 {
        assert(isbn_core(s).len() == 0);
    }
    assert(is_digit(s[0]) || s[0] == 'X' || s[0] == 'x' || s[0] == '-' || s[0] == ' ');
    lemma_no_doi_url(s);
    lemma_not_doi(s);
    let lower = lowercase(s);
    assert(lower[0] == ascii_lower(s[0]));
    lemma_no_prefix(lower, "arxiv:"@);
    lemma_no_prefix(lower, "isbn:"@);
    lemma_no_prefix(lower, "pmid:"@);
    lemma_no_prefix(lower, "pubmed:"@);
    assert(!s.contains('/'));
    assert(!is_arxiv_id(s)) by {
        let core = without_version(s);
        assert(forall|k: int| 0 <= k < core.len() ==> core[k] == s[k]);
        if core.len() > 4 {
            assert(core[4] == s[4]);
        }
    }
}

proof fn lemma_core_concat(a: Seq<char>, b: Seq<char>)
    ensures
        isbn_core(a + b) == isbn_core(a) + isbn_core(b),
    decreases b.len(),
{
    if b.len() == 0 {
        assert(a + b =~= a);
        assert(isbn_core(a) + isbn_core(b) =~= isbn_core(a));
    } else {
        lemma_core_concat(a, b.drop_last());
        assert((a + b).drop_last() =~= a + b.drop_last());
        assert(isbn_core(a + b) =~= isbn_core(a) + isbn_core(b));
    }
}

/// A hyphen, a space or a dash anywhere in an ISBN makes no difference.
pub proof fn law_isbn_separators_make_no_difference(a: Seq<char>, sep: char, b: Seq<char>)
    requires
        sep == '-' || sep == ' ' || sep == '\u{2010}' || sep == '\u{2013}',
    ensures
        isbn_of(a.push(sep) + b) == isbn_of(a + b),
{
    lemma_core_concat(a.push(sep), b);
    lemma_core_concat(a, b);
    assert(a.push(sep).drop_last() =~= a);
}

/// The check digit of an ISBN-10: the digits weighted from ten down to one, `X` counting ten, add up
/// to a multiple of eleven.
pub proof fn law_isbn10_check(s: Seq<char>)
    requires
        s.len() == 10,
        forall|i: int| 0 <= i < 9 ==> is_digit(#[trigger] s[i]),
        is_digit(s[9]) || s[9] == 'X',
    ensures
        ({
            let last = if s[9] == 'X' {
                10
            } else {
                s[9] as u32 - '0' as u32
            };
            is_isbn10(s) <==> (10 * (s[0] as u32 - '0' as u32) + 9 * (s[1] as u32 - '0' as u32) + 8
                * (s[2] as u32 - '0' as u32) + 7 * (s[3] as u32 - '0' as u32) + 6 * (s[4] as u32
                - '0' as u32) + 5 * (s[5] as u32 - '0' as u32) + 4 * (s[6] as u32 - '0' as u32) + 3
                * (s[7] as u32 - '0' as u32) + 2 * (s[8] as u32 - '0' as u32) + last) % 11 == 0
        }),
{
    reveal_with_fuel(isbn10_sum, 11);
    assert(forall|i: int| 0 <= i < 9 ==> #[trigger] isbn_value(s[i]) == s[i] as u32 - 48) by {
        assert forall|i: int| 0 <= i < 9 implies #[trigger] isbn_value(s[i]) == s[i] as u32 - 48 by {
            assert(is_digit(s[i]));
        }
    }
}

/// The check digit of an ISBN-13: the digits weighted one and three in turn add up to a multiple of
/// ten.
pub proof fn law_isbn13_check(s: Seq<char>)
    requires
        s.len() == 13,
        all_digits(s),
    ensures
        is_isbn13(s) <==> ((s[0] as u32 - '0' as u32) + 3 * (s[1] as u32 - '0' as u32) + (
        s[2] as u32 - '0' as u32) + 3 * (s[3] as u32 - '0' as u32) + (s[4] as u32 - '0' as u32) + 3
            * (s[5] as u32 - '0' as u32) + (s[6] as u32 - '0' as u32) + 3 * (s[7] as u32
            - '0' as u32) + (s[8] as u32 - '0' as u32) + 3 * (s[9] as u32 - '0' as u32) + (
        s[10] as u32 - '0' as u32) + 3 * (s[11] as u32 - '0' as u32) + (s[12] as u32 - '0' as u32))
            % 10 == 0,
{
    reveal_with_fuel(isbn13_sum, 14);
    assert(forall|i: int| 0 <= i < 13 ==> #[trigger] isbn_value(s[i]) == s[i] as u32 - 48) by {
        assert forall|i: int| 0 <= i < 13 implies #[trigger] isbn_value(s[i]) == s[i] as u32 - 48 by {
            assert(is_digit(s[i]));
        }
    }
}

/// Nothing else is an ISBN than ten characters, digits but for an `X` at the end, or thirteen digits;
/// it is handed out without separators.
pub proof fn law_isbn_shape(s: Seq<char>)
    requires
        isbn_of(s) is Some,
    ensures
        ({
            let isbn = isbn_of(s).unwrap();
            &&& isbn.len() == 10 || isbn.len() == 13
            &&& forall|i: int|
                0 <= i < isbn.len() ==> is_digit(#[trigger] isbn[i]) || (isbn.len() == 10 && i == 9
                    && isbn[i] == 'X')
        }),
{
    let isbn = isbn_of(s).unwrap();
    assert forall|i: int| 0 <= i < isbn.len() implies is_digit(#[trigger] isbn[i]) || (isbn.len()
        == 10 && i == 9 && isbn[i] == 'X') by {}
}

/// Whitespace around an identifier makes no difference to what it is read as.
pub proof fn law_identifier_is_trimmed(a: Seq<char>, b: Seq<char>)
    requires
        trimmed(a) == trimmed(b),
    ensures
        identified(a) is Ok ==> identified(b) == identified(a),
        identified(a) is Err ==> identified(b) is Err,
{
}

} // verus!
