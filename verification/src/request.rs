//! The article as it arrives: pages with an optional text, the address under
//! which an article is asked for, and the one-shot producer that gives each
//! page's entries in turn.

use std::collections::HashMap;
use vstd::prelude::*;
use vstd::std_specs::hash::spec_keys_iter;
use vstd::std_specs::iter::IteratorSpec;
use crate::parser::{parse, parse_spec, views, Wik, WikView};

verus! {

/// Why a session cannot start.
#[derive(Debug, Clone, Copy, PartialEq, Eq, Structural)]
pub enum StartError {
    /// The word to look up is empty.
    EmptyTerm,
    /// No address could be made for the word.
    BadUrl,
    /// No page of the article gave an entry.
    NothingFound,
}

/// One page of an article.
#[derive(Debug, Clone)]
pub struct Page {
    pub pageid: u64,
    pub title: String,
    pub desc: Option<String>,
}

/// The pages of an article, each under its page identifier.
#[derive(Debug, Clone)]
pub struct Query {
    pub pages: HashMap<u64, Page>,
}

/// A page's text in contracts.
pub open spec fn page_text(page: Page) -> Option<Seq<char>> {
    match page.desc {
        Some(text) => Some(text@),
        None => None,
    }
}

/// The entries that a page gives: those of its text, and none without a text.
pub open spec fn page_entries(text: Option<Seq<char>>) -> Seq<WikView> {
    match text {
        Some(t) => parse_spec(t),
        None => Seq::empty(),
    }
}

/// The entries of the first page that gives any.
pub open spec fn first_entries(texts: Seq<Option<Seq<char>>>) -> Option<Seq<WikView>>
    decreases texts.len(),
{
    if texts.len() == 0 {
        None
    } else if page_entries(texts[0]).len() > 0 {
        Some(page_entries(texts[0]))
    } else {
        first_entries(texts.drop_first())
    }
}

/// The texts that are left once the first page that gives entries has been
/// visited.
pub open spec fn after_first(texts: Seq<Option<Seq<char>>>) -> Seq<Option<Seq<char>>>
    decreases texts.len(),
{
    if texts.len() == 0 {
        texts
    } else if page_entries(texts[0]).len() > 0 {
        texts.drop_first()
    } else {
        after_first(texts.drop_first())
    }
}

impl Page {
    /// The entries of the page's text, where it has one.
    pub fn get_line(&self) -> (out: Option<Vec<Wik>>)
        ensures
            match out {
                Some(entries) => page_text(*self) is Some && views(entries@) == parse_spec(
                    page_text(*self)->0,
                ),
                None => page_text(*self) is None,
            },
    {
        match &self.desc {
            Some(text) => Some(parse(text.as_str())),
            None => None,
        }
    }
}

/// Where articles are asked for.
pub open spec fn endpoint() -> Seq<char> {
    "https://fr.wiktionary.org/w/api.php?&explaintext"@
}

/// The parameters that ask for the plain text of the article on `word`.
pub open spec fn query_params(word: Seq<char>) -> Seq<(Seq<char>, Seq<char>)> {
    seq![
        ("format"@, "json"@),
        ("action"@, "query"@),
        ("prop"@, "extracts"@),
        ("exlimit"@, "1"@),
        ("titles"@, word),
    ]
}

/// Pairs of strings in contracts.
pub open spec fn pairs(params: Seq<(String, String)>) -> Seq<(Seq<char>, Seq<char>)> {
    params.map_values(|p: (String, String)| (p.0@, p.1@))
}

#[verifier::external_type_specification]
#[verifier::external_body]
pub struct ExParseError(url::ParseError);

/// The address that `url::Url::parse_with_params` makes of an input and a
/// list of parameters, or `None` where it refuses the input.
pub uninterp spec fn url_with_params(input: Seq<char>, params: Seq<(Seq<char>, Seq<char>)>) -> Option<Seq<char>>;

/// Calls `url::Url::parse_with_params`, which parses `input` as an absolute
/// address and appends the parameters to its query. Nothing is proved of this
/// call: its result, the address as a string or the parser's error, is only
/// given the name `url_with_params`, as a function of the arguments alone.
#[verifier::external_body]
fn parse_with_params(input: &str, params: &Vec<(String, String)>) -> (out: Result<
    String,
    url::ParseError,
>)
    ensures
        match out {
            Ok(address) => url_with_params(input@, pairs(params@)) == Some(address@),
            Err(_) => url_with_params(input@, pairs(params@)) is None,
        },
{
    match url::Url::parse_with_params(input, params.iter()) {
        Ok(address) => Ok(String::from(address)),
        Err(refusal) => Err(refusal),
    }
}

/// Turns the outcome of making an address into the library's own terms.
pub fn address_or_error(parsed: Result<String, url::ParseError>) -> (out: Result<
    String,
    StartError,
>)
    ensures
        match parsed {
            Ok(address) => out is Ok && out->Ok_0@ == address@,
            Err(_) => out == Err::<String, StartError>(StartError::BadUrl),
        },
{
    match parsed {
        Ok(address) => Ok(address),
        Err(_) => Err(StartError::BadUrl),
    }
}

/// The address under which the article on `word` is asked for.
///
/// An empty word is refused. For any other, the address is the endpoint with
/// the query parameters appended, the word last, under the key `titles`.
pub fn request_url(word: &str) -> (out: Result<String, StartError>)
    ensures
        word@.len() == 0 ==> out == Err::<String, StartError>(StartError::EmptyTerm),
        word@.len() > 0 ==> match url_with_params(endpoint(), query_params(word@)) {
            Some(address) => out is Ok && out->Ok_0@ == address,
            None => out == Err::<String, StartError>(StartError::BadUrl),
        },
{
    if word.is_empty() {
        return Err(StartError::EmptyTerm);
    }
    let mut params: Vec<(String, String)> = Vec::new();
    params.push(("format".to_owned(), "json".to_owned()));
    params.push(("action".to_owned(), "query".to_owned()));
    params.push(("prop".to_owned(), "extracts".to_owned()));
    params.push(("exlimit".to_owned(), "1".to_owned()));
    params.push(("titles".to_owned(), word.to_owned()));
    assert(pairs(params@) =~= query_params(word@));
    let parsed = parse_with_params("https://fr.wiktionary.org/w/api.php?&explaintext", &params);
    address_or_error(parsed)
}

/// The keys of `pages`, each once, in the order in which the map hands them
/// out.
pub fn page_ids(pages: &HashMap<u64, Page>) -> (ids: Vec<u64>)
    ensures
        ids@.no_duplicates(),
        ids@.to_set() == pages@.dom(),
{
    broadcast use vstd::std_specs::hash::group_hash_axioms;

    let mut ids: Vec<u64> = Vec::new();
    let ghost walk = spec_keys_iter(pages).remaining();
    for id in it: pages.keys()
        invariant
            it.seq() == walk,
            ids@ == walk.unref().subrange(0, it.index() as int),
    {
        ids.push(*id);
        assert(ids@ =~= walk.unref().subrange(0, it.index() + 1));
    }
    assert(ids@ =~= walk.unref());
    assert forall|i: int, j: int|
        0 <= i < ids@.len() && 0 <= j < ids@.len() && i != j implies ids@[i] != ids@[j] by {
        assert(walk[i] != walk[j]);
    }
    ids
}

/// The one-shot producer of an article's entries: it visits each page once,
/// in an order that the map of pages decides, and gives the page's entries.
#[derive(Debug)]
pub struct Resp {
    pages: HashMap<u64, Page>,
    order: Vec<u64>,
    next: usize,
}

impl Resp {
    /// The pages of the article.
    pub closed spec fn pages(&self) -> Map<u64, Page> {
        self.pages@
    }

    /// The identifiers of the pages that are still to come, in the order of
    /// the visits.
    pub closed spec fn pending(&self) -> Seq<u64> {
        self.order@.subrange(self.next as int, self.order.len() as int)
    }

    /// Every page that is still to come is a page of the article, and none
    /// comes twice.
    #[verifier::type_invariant]
    spec fn inv(self) -> bool {
        &&& self.next <= self.order.len()
        &&& self.order@.no_duplicates()
        &&& forall|i: int| 0 <= i < self.order.len() ==> self.pages@.contains_key(self.order@[i])
    }

    /// The texts of the pages that are still to come, in the order of the
    /// visits.
    pub open spec fn remaining(&self) -> Seq<Option<Seq<char>>> {
        self.pending().map_values(|id: u64| page_text(self.pages()[id]))
    }

    /// A producer over the pages of `query`, none of them visited: every page
    /// is to come, once, in whatever order the map hands them out.
    pub fn new(query: Query) -> (out: Resp)
        ensures
            out.pages() == query.pages@,
            out.pending().no_duplicates(),
            out.pending().to_set() == query.pages@.dom(),
    {
        let order = page_ids(&query.pages);
        let out = Resp { pages: query.pages, order, next: 0 };
        proof {
            assert(out.pending() =~= order@);
            assert forall|i: int| 0 <= i < order.len() implies out.pages@.contains_key(
                order@[i],
            ) by {
                assert(order@.to_set().contains(order@[i]));
            }
        }
        out
    }

    /// Visits the next page and gives its entries: those of its text, none
    /// for a page without text. `None` when every page has been visited.
    pub fn next(&mut self) -> (out: Option<Vec<Wik>>)
        ensures
            final(self).pages() == old(self).pages(),
            old(self).pending().len() == 0 ==> out is None && final(self).pending() == old(
                self,
            ).pending(),
            old(self).pending().len() > 0 ==> {
                &&& out is Some
                &&& views(out->0@) == page_entries(old(self).remaining()[0])
                &&& final(self).pending() == old(self).pending().drop_first()
                &&& final(self).remaining() == old(self).remaining().drop_first()
            },
    {
        broadcast use vstd::std_specs::hash::group_hash_axioms;

        proof {
            use_type_invariant(&*self);
        }
        if self.next >= self.order.len() {
            return None;
        }
        let id: u64 = self.order[self.next];
        assert(old(self).pending()[0] == id);
        let found = match self.pages.get(&id) {
            Some(page) => page.get_line(),
            None => None,
        };
        let entries = match found {
            Some(entries) => entries,
            None => Vec::new(),
        };
        assert(views(entries@) =~= page_entries(old(self).remaining()[0]));
        self.next = self.next + 1;
        assert(final(self).pending() =~= old(self).pending().drop_first());
        assert(final(self).remaining() =~= old(self).remaining().drop_first());
        Some(entries)
    }

    /// Visits pages until one gives entries, and returns those: the sequence
    /// that a session starts on. Fails when no page that was left gives any.
    pub fn first_non_empty(&mut self) -> (out: Result<Vec<Wik>, StartError>)
        ensures
            final(self).pages() == old(self).pages(),
            match first_entries(old(self).remaining()) {
                Some(entries) => out is Ok && views(out->Ok_0@) == entries && out->Ok_0.len() > 0,
                None => out == Err::<Vec<Wik>, StartError>(StartError::NothingFound),
            },
            final(self).remaining() == after_first(old(self).remaining()),
    {
        loop
            invariant
                self.pages() == old(self).pages(),
                first_entries(self.remaining()) == first_entries(old(self).remaining()),
                after_first(self.remaining()) == after_first(old(self).remaining()),
            decreases self.pending().len(),
        {
            match self.next() {
                Some(entries) => {
                    if entries.len() > 0 {
                        assert(views(entries@).len() == entries.len());
                        return Ok(entries);
                    }
                },
                None => {
                    return Err(StartError::NothingFound);
                },
            }
        }
    }
}

} // verus!
