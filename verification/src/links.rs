//! Addresses: how a reference is resolved against a base, and how the page
//! number is put into the address of a page.

use vstd::prelude::*;
use crate::text::{has_prefix, opt_view, owned, starts_with, views};

verus! {

/// The address that a reference names when it is resolved against a base;
/// none where the base is no address or the reference cannot be resolved.
pub uninterp spec fn url_joined(base: Seq<char>, reference: Seq<char>) -> Option<Seq<char>>;

/// The address without its query and its fragment; none where the text is
/// no address.
pub uninterp spec fn url_stripped(url: Seq<char>) -> Option<Seq<char>>;

/// The names and values of the query of an address, in their order; none
/// where the text is no address.
pub uninterp spec fn url_pairs(url: Seq<char>) -> Option<Seq<(Seq<char>, Seq<char>)>>;

/// The address with the given names and values as its query; none where the
/// text is no address.
pub uninterp spec fn url_with_pairs(url: Seq<char>, pairs: Seq<(Seq<char>, Seq<char>)>) -> Option<
    Seq<char>,
>;

/// `url::Url::parse` of the base, `Url::join` with the reference, and the
/// text of the result. The contract claims that the result depends on the
/// two texts alone.
#[verifier::external_body]
pub(crate) fn url_join(base: &str, reference: &str) -> (r: Option<String>)
    ensures
        opt_view(r) == url_joined(base@, reference@),
{
    Some(url::Url::parse(base).ok()?.join(reference).ok()?.to_string())
}

/// `url::Url::parse`, then `Url::set_query` and `Url::set_fragment` with
/// nothing, and the text of the result. The contract claims that the result
/// depends on the text alone.
#[verifier::external_body]
pub(crate) fn url_strip(address: &str) -> (r: Option<String>)
    ensures
        opt_view(r) == url_stripped(address@),
{
    let mut u = url::Url::parse(address).ok()?;
    u.set_query(None);
    u.set_fragment(None);
    Some(u.to_string())
}

/// The views of a list of pairs of strings.
pub open spec fn pair_views(pairs: Seq<(String, String)>) -> Seq<(Seq<char>, Seq<char>)> {
    pairs.map_values(|p: (String, String)| (p.0@, p.1@))
}

/// `url::Url::parse`, then `Url::query_pairs`, each pair copied. The
/// contract claims that the pairs depend on the text alone.
#[verifier::external_body]
pub(crate) fn url_query_pairs(address: &str) -> (r: Option<Vec<(String, String)>>)
    ensures
        (match r {
            Some(pairs) => Some(pair_views(pairs@)),
            None => None,
        }) == url_pairs(address@),
{
    let u = url::Url::parse(address).ok()?;
    Some(u.query_pairs().map(|(k, v)| (k.into_owned(), v.into_owned())).collect())
}

/// `url::Url::parse`, then `Url::query_pairs_mut`, cleared and extended by
/// the pairs given, and the text of the result. The contract claims that
/// the result depends on the text and the pairs alone.
#[verifier::external_body]
pub(crate) fn url_set_query_pairs(address: &str, pairs: &Vec<(String, String)>) -> (r: Option<
    String,
>)
    ensures
        opt_view(r) == url_with_pairs(address@, pair_views(pairs@)),
{
    let mut u = url::Url::parse(address).ok()?;
    u.query_pairs_mut().clear().extend_pairs(pairs.iter().map(|p| (p.0.as_str(), p.1.as_str())));
    Some(u.to_string())
}

// ---------------------------------------------------------------------------
// Absolute addresses
// ---------------------------------------------------------------------------

/// Whether the value starts with `http://` or `https://`.
pub open spec fn is_absolute(value: Seq<char>) -> bool {
    has_prefix(value, "http://"@) || has_prefix(value, "https://"@)
}

/// The absolute form of a value: the value itself where it is absolute
/// already; else what it names against the base, where there is a base and
/// the value can be resolved against it; else the value itself.
pub open spec fn absolute_url(base: Option<Seq<char>>, value: Seq<char>) -> Seq<char> {
    if is_absolute(value) {
        value
    } else {
        match base {
            Some(b) => match url_joined(b, value) {
                Some(joined) => joined,
                None => value,
            },
            None => value,
        }
    }
}

/// Makes an address absolute.
pub fn absolutize_url(base_url: Option<&str>, value: &str) -> (r: String)
    ensures
        r@ == absolute_url(
            match base_url {
                Some(b) => Some(b@),
                None => None,
            },
            value@,
        ),
{
    if starts_with(value, "http://") || starts_with(value, "https://") {
        return owned(value);
    }
    match base_url {
        Some(base) => match url_join(base, value) {
            Some(joined) => joined,
            None => owned(value),
        },
        None => owned(value),
    }
}

// ---------------------------------------------------------------------------
// Pages
// ---------------------------------------------------------------------------

/// The pairs with the value of the first pair named `param` replaced by
/// `page`, or with the pair of `param` and `page` added at the end where no
/// pair has that name.
pub open spec fn paged_pairs(
    pairs: Seq<(Seq<char>, Seq<char>)>,
    param: Seq<char>,
    page: Seq<char>,
) -> Seq<(Seq<char>, Seq<char>)>
    decreases pairs.len(),
{
    if pairs.len() == 0 {
        seq![(param, page)]
    } else if pairs[0].0 == param {
        seq![(param, page)] + pairs.drop_first()
    } else {
        seq![pairs[0]] + paged_pairs(pairs.drop_first(), param, page)
    }
}

/// The address of a page: the base address with the page parameter set.
pub open spec fn paged_url(base_url: Seq<char>, param: Seq<char>, page: Seq<char>) -> Option<
    Seq<char>,
> {
    match url_pairs(base_url) {
        Some(pairs) => url_with_pairs(base_url, paged_pairs(pairs, param, page)),
        None => None,
    }
}

/// An address that cannot be read.
#[derive(Clone, Debug)]
pub struct InvalidUrl {
    pub url: String,
}

/// The pairs of a query with the page parameter set.
pub fn set_page(pairs: &Vec<(String, String)>, param: &str, page: &str) -> (out: Vec<
    (String, String),
>)
    ensures
        pair_views(out@) == paged_pairs(pair_views(pairs@), param@, page@),
{
    let mut out: Vec<(String, String)> = Vec::new();
    let mut replaced = false;
    let mut i: usize = 0;
    let ghost all = pair_views(pairs@);
    assert(all.skip(0) =~= all);
    assert(pair_views(out@) =~= Seq::<(Seq<char>, Seq<char>)>::empty());
    while i < pairs.len()
        invariant
            i <= pairs.len(),
            all == pair_views(pairs@),
            !replaced ==> pair_views(out@) + paged_pairs(all.skip(i as int), param@, page@)
                == paged_pairs(all, param@, page@),
            replaced ==> pair_views(out@) + all.skip(i as int) == paged_pairs(all, param@, page@),
        decreases pairs.len() - i,
    {
        let ghost rest = all.skip(i as int);
        let ghost before = pair_views(out@);
        assert(rest[0] == (pairs@[i as int].0@, pairs@[i as int].1@));
        assert(rest.drop_first() =~= all.skip(i + 1));
        if !replaced && *pairs[i].0.as_str() == *param {
            out.push((owned(param), owned(page)));
            replaced = true;
            assert(pair_views(out@) =~= before.push((param@, page@)));
            assert(pair_views(out@) + all.skip(i + 1) =~= before + paged_pairs(
                rest,
                param@,
                page@,
            ));
        } else {
            out.push((pairs[i].0.clone(), pairs[i].1.clone()));
            assert(pair_views(out@) =~= before.push(rest[0]));
            if replaced {
                assert(pair_views(out@) + all.skip(i + 1) =~= before + rest);
            } else {
                assert(pair_views(out@) + paged_pairs(all.skip(i + 1), param@, page@) =~= before
                    + paged_pairs(rest, param@, page@));
            }
        }
        i += 1;
    }
    let ghost before = pair_views(out@);
    assert(all.skip(i as int) =~= Seq::<(Seq<char>, Seq<char>)>::empty());
    if !replaced {
        out.push((owned(param), owned(page)));
        assert(pair_views(out@) =~= before + paged_pairs(all.skip(i as int), param@, page@));
    } else {
        assert(before + all.skip(i as int) =~= before);
    }
    out
}

/// The address of the page `page`: the base address with the parameter
/// `param` set to the page, in place of its first value or at the end of
/// the query. A base that is no address is an error.
pub fn build_paged_url(base_url: &str, param: &str, page: &str) -> (r: Result<String, InvalidUrl>)
    ensures
        match r {
            Ok(address) => paged_url(base_url@, param@, page@) == Some(address@),
            Err(e) => paged_url(base_url@, param@, page@) is None && e.url@ == base_url@,
        },
{
    match url_query_pairs(base_url) {
        Some(pairs) => {
            let paged = set_page(&pairs, param, page);
            match url_set_query_pairs(base_url, &paged) {
                Some(address) => Ok(address),
                None => Err(InvalidUrl { url: owned(base_url) }),
            }
        },
        None => Err(InvalidUrl { url: owned(base_url) }),
    }
}

} // verus!
