//! From the raw links of a page to the list that is shown.

use vstd::prelude::*;
use crate::config::{LinkError, PipelineConfig};
use crate::link::{joined_text, origins_equal, stripped, Url};
use crate::order::{ascending, descending, insert_pos, insert_text, sort_texts};
use crate::order::{lemma_sort_texts, lemma_sort_texts_members};

verus! {

/// The texts of a sequence of addresses.
pub open spec fn texts(links: Seq<Url>) -> Seq<Seq<char>> {
    Seq::new(links.len(), |i: int| links[i]@)
}

/// The texts of a sequence of strings.
pub open spec fn raw_texts(raw_links: Seq<String>) -> Seq<Seq<char>> {
    Seq::new(raw_links.len(), |i: int| raw_links[i]@)
}

/// Whether the origin filters of `config` let the address `key` through, on a
/// page at `base`.
pub open spec fn passes_filter(base: Seq<char>, key: Seq<char>, config: PipelineConfig) -> bool {
    config.keeps(origins_equal(key, base))
}

/// What one raw link contributes: its address without fragment, if it resolves
/// and the origin filters let it through.
pub open spec fn candidate(base: Seq<char>, raw: Seq<char>, config: PipelineConfig) -> Option<
    Seq<char>,
> {
    match joined_text(base, raw) {
        None => None,
        Some(address) => if passes_filter(base, stripped(address), config) {
            Some(stripped(address))
        } else {
            None
        },
    }
}

/// The contributions of `raws`, each kept where it came first.
pub open spec fn collected(base: Seq<char>, raws: Seq<Seq<char>>, config: PipelineConfig) -> Seq<
    Seq<char>,
>
    decreases raws.len(),
{
    if raws.len() == 0 {
        Seq::empty()
    } else {
        let before = collected(base, raws.drop_last(), config);
        match candidate(base, raws.last(), config) {
            Some(key) => with_new(before, key),
            None => before,
        }
    }
}

/// `links` sorted if `config` asks for it, then reversed if it asks for that.
pub open spec fn ordered(links: Seq<Seq<char>>, config: PipelineConfig) -> Seq<Seq<char>> {
    let sorted = if config.sort {
        sort_texts(links)
    } else {
        links
    };
    if config.reverse {
        sorted.reverse()
    } else {
        sorted
    }
}

/// The result of a run on the raw links `raws` of the page at `base`.
pub open spec fn processed(base: Seq<char>, raws: Seq<Seq<char>>, config: PipelineConfig) -> Seq<
    Seq<char>,
> {
    ordered(collected(base, raws, config), config)
}

/// The address that `raw` contributes, if any.
pub fn candidate_link(base: &Url, raw: &str, config: &PipelineConfig) -> (r: Option<Url>)
    ensures
        r is Some <==> candidate(base@, raw@, *config) is Some,
        r matches Some(u) ==> Some(u@) == candidate(base@, raw@, *config),
{
    match base.resolve(raw) {
        Err(_) => None,
        Ok(address) => {
            let key = address.strip_fragment();
            if config.admits(key.same_origin(base)) {
                Some(key)
            } else {
                None
            }
        },
    }
}

/// Whether `link` is among `links`.
pub fn contains_link(links: &Vec<Url>, link: &Url) -> (r: bool)
    ensures
        r == texts(links@).contains(link@),
{
    let mut i: usize = 0;
    while i < links.len()
        invariant
            i <= links.len(),
            forall|k: int| 0 <= k < i ==> texts(links@)[k] != link@,
        decreases links.len() - i,
    {
        if links[i] == *link {
            assert(texts(links@)[i as int] == link@);
            return true;
        }
        i += 1;
    }
    false
}

/// `links` with `key` behind them, unless `key` is among them already.
pub open spec fn with_new(links: Seq<Seq<char>>, key: Seq<char>) -> Seq<Seq<char>> {
    if links.contains(key) {
        links
    } else {
        links.push(key)
    }
}

/// Appends `key` to `links` unless it is among them already: the first of each
/// address stays, and stays where it is.
pub fn push_new(links: &mut Vec<Url>, key: Url)
    ensures
        texts(final(links)@) == with_new(texts(old(links)@), key@),
{
    let ghost before = texts(links@);
    if !contains_link(links, &key) {
        links.push(key);
        assert(texts(links@) =~= before.push(key@));
    }
}

/// Resolves, strips and filters each raw link in turn and keeps the first of
/// each address.
pub fn collect_links(base: &Url, raw_links: &Vec<String>, config: &PipelineConfig) -> (out: Vec<
    Url,
>)
    ensures
        texts(out@) == collected(base@, raw_texts(raw_links@), *config),
{
    let mut out: Vec<Url> = Vec::new();
    let mut i: usize = 0;
    assert(raw_texts(raw_links@).take(0) =~= Seq::empty());
    assert(texts(out@) =~= Seq::empty());
    while i < raw_links.len()
        invariant
            i <= raw_links.len(),
            texts(out@) == collected(base@, raw_texts(raw_links@).take(i as int), *config),
        decreases raw_links.len() - i,
    {
        let ghost upto = raw_texts(raw_links@).take(i + 1);
        assert(upto.drop_last() =~= raw_texts(raw_links@).take(i as int));
        assert(upto.last() == raw_links@[i as int]@);
        match candidate_link(base, raw_links[i].as_str(), config) {
            Some(key) => push_new(&mut out, key),
            None => {},
        }
        i += 1;
    }
    assert(raw_texts(raw_links@).take(i as int) =~= raw_texts(raw_links@));
    out
}

/// Where `link` goes among the ascending `links`.
fn find_place(links: &Vec<Url>, link: &Url) -> (p: usize)
    ensures
        p == insert_pos(texts(links@), link@),
{
    let mut p: usize = links.len();
    assert(texts(links@).take(p as int) =~= texts(links@));
    while p > 0 && !links[p - 1].precedes(link)
        invariant
            p <= links.len(),
            insert_pos(texts(links@), link@) == insert_pos(
                texts(links@).take(p as int),
                link@,
            ),
        decreases p,
    {
        assert(texts(links@).take(p as int).drop_last() =~= texts(links@).take(p - 1));
        assert(texts(links@).take(p as int).last() == links@[p - 1]@);
        p -= 1;
    }
    proof {
        if p > 0 {
            assert(texts(links@).take(p as int).last() == links@[p - 1]@);
        }
    }
    p
}

/// The same addresses in ascending order of their texts.
pub fn sort_links(links: &Vec<Url>) -> (out: Vec<Url>)
    ensures
        texts(out@) == sort_texts(texts(links@)),
        ascending(texts(out@)),
        out.len() == links.len(),
        forall|t: Seq<char>| texts(out@).contains(t) <==> texts(links@).contains(t),
{
    let mut out: Vec<Url> = Vec::new();
    let mut i: usize = 0;
    assert(texts(links@).take(0) =~= Seq::empty());
    assert(texts(out@) =~= Seq::empty());
    while i < links.len()
        invariant
            i <= links.len(),
            out.len() == i,
            texts(out@) == sort_texts(texts(links@).take(i as int)),
        decreases links.len() - i,
    {
        let ghost done = texts(out@);
        let ghost upto = texts(links@).take(i + 1);
        assert(upto.drop_last() =~= texts(links@).take(i as int));
        assert(upto.last() == links@[i as int]@);
        let link = links[i].clone();
        let p = find_place(&out, &link);
        proof {
            crate::order::lemma_insert_pos(done, link@);
        }
        out.insert(p, link);
        assert(texts(out@) =~= insert_text(done, link@));
        i += 1;
    }
    proof {
        assert(texts(links@).take(i as int) =~= texts(links@));
        lemma_sort_texts(texts(links@));
        lemma_sort_texts_members(texts(links@));
    }
    out
}

/// The same addresses, last first.
pub fn reverse_links(links: &Vec<Url>) -> (out: Vec<Url>)
    ensures
        texts(out@) == texts(links@).reverse(),
        out.len() == links.len(),
{
    let mut out: Vec<Url> = Vec::new();
    let mut i: usize = links.len();
    while i > 0
        invariant
            i <= links.len(),
            out.len() == links.len() - i,
            forall|k: int| 0 <= k < out.len() ==> (#[trigger] out@[k])@ == links@[links.len() - 1 - k]@,
        decreases i,
    {
        i -= 1;
        out.push(links[i].clone());
    }
    assert(texts(out@) =~= texts(links@).reverse());
    out
}

/// Runs the whole pipeline on the raw links of the page at `base`.
///
/// Fails only where `config` asks for internal and external links at once, and
/// then before any link is looked at. A raw link that does not resolve is left
/// out and stops nothing.
pub fn process(base: &Url, raw_links: &Vec<String>, config: &PipelineConfig) -> (r: Result<
    Vec<Url>,
    LinkError,
>)
    ensures
        r is Ok <==> config.valid(),
        r is Err ==> r == Err::<Vec<Url>, LinkError>(LinkError::ConfigError),
        r matches Ok(links) ==> {
            &&& texts(links@) == processed(base@, raw_texts(raw_links@), *config)
            &&& texts(links@).no_duplicates()
            &&& config.sort && !config.reverse ==> ascending(texts(links@))
            &&& config.sort && config.reverse ==> descending(texts(links@))
        },
{
    if config.validate().is_err() {
        return Err(LinkError::ConfigError);
    }
    let mut links = collect_links(base, raw_links, config);
    if config.sort {
        links = sort_links(&links);
    }
    if config.reverse {
        links = reverse_links(&links);
    }
    proof {
        crate::laws::lemma_processed_shape(base@, raw_texts(raw_links@), *config);
    }
    Ok(links)
}

} // verus!
