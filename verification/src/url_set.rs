//! A set of URLs, each in its canonical text, kept in the order in which
//! they were added.

use vstd::prelude::*;

verus! {

/// The texts of `urls`, in the same order.
pub open spec fn texts(urls: Seq<String>) -> Seq<Seq<char>> {
    urls.map_values(|url: String| url@)
}

/// `urls` without `url`, the others in the same order.
pub open spec fn without(urls: Seq<Seq<char>>, url: Seq<char>) -> Seq<Seq<char>> {
    urls.filter(|other: Seq<char>| other != url)
}

/// A finite set of URLs. A walk over the set visits them in the order in
/// which they were added.
#[derive(Debug, PartialEq, Eq)]
pub struct UrlSet {
    urls: Vec<String>,
}

impl View for UrlSet {
    type V = Seq<Seq<char>>;

    /// The URLs of the set, in the order in which they were added.
    closed spec fn view(&self) -> Seq<Seq<char>> {
        texts(self.urls@)
    }
}

impl Clone for UrlSet {
    fn clone(&self) -> (copy: UrlSet)
        ensures
            copy@ == self@,
            self.wf() ==> copy.wf(),
    {
        let mut urls: Vec<String> = Vec::new();
        let mut next: usize = 0;
        while next < self.urls.len()
            invariant
                next <= self.urls@.len(),
                texts(urls@) == texts(self.urls@).take(next as int),
            decreases self.urls@.len() - next,
        {
            let url = self.urls[next].clone();
            let ghost before = texts(urls@);
            urls.push(url);
            assert(texts(urls@) =~= before.push(url@));
            next += 1;
        }
        UrlSet { urls }
    }
}

impl UrlSet {
    /// The representation invariant: no URL is held twice.
    pub closed spec fn wf(&self) -> bool {
        texts(self.urls@).no_duplicates()
    }

    /// The empty set.
    pub fn new() -> (set: UrlSet)
        ensures
            set.wf(),
            set@ == Seq::<Seq<char>>::empty(),
    {
        UrlSet { urls: Vec::new() }
    }

    /// The number of URLs in the set.
    pub fn len(&self) -> (count: usize)
        ensures
            count == self@.len(),
    {
        self.urls.len()
    }

    /// Whether the set holds no URL.
    pub fn is_empty(&self) -> (empty: bool)
        ensures
            empty == (self@.len() == 0),
    {
        self.urls.len() == 0
    }

    /// The URL at position `at` in the order in which the URLs were added.
    pub fn get(&self, at: usize) -> (url: &String)
        requires
            at < self@.len(),
        ensures
            url@ == self@[at as int],
    {
        &self.urls[at]
    }

    /// The position of `url` in the set, if it is there.
    fn position(&self, url: &String) -> (found: Option<usize>)
        ensures
            (match found {
                Some(at) => at < self@.len() && self@[at as int] == url@,
                None => !self@.contains(url@),
            }),
    {
        let mut next: usize = 0;
        while next < self.urls.len()
            invariant
                next <= self.urls@.len(),
                forall|i: int| 0 <= i < next ==> texts(self.urls@)[i] != url@,
            decreases self.urls@.len() - next,
        {
            if self.urls[next] == *url {
                return Some(next);
            }
            next += 1;
        }
        None
    }

    /// Whether `url` is in the set.
    pub fn contains(&self, url: &String) -> (found: bool)
        ensures
            found == self@.contains(url@),
    {
        self.position(url).is_some()
    }

    /// Adds `url` to the set, after the URLs that it holds, unless it holds
    /// `url` already.
    pub fn insert(&mut self, url: String) -> (added: bool)
        requires
            old(self).wf(),
        ensures
            final(self).wf(),
            added == !old(self)@.contains(url@),
            final(self)@ == (if added {
                old(self)@.push(url@)
            } else {
                old(self)@
            }),
    {
        match self.position(&url) {
            Some(_) => false,
            None => {
                let ghost before = texts(self.urls@);
                self.urls.push(url);
                assert(texts(self.urls@) =~= before.push(url@));
                true
            },
        }
    }

    /// Takes `url` out of the set, if it is there. The other URLs stay in
    /// their order.
    pub fn remove(&mut self, url: &String) -> (removed: bool)
        requires
            old(self).wf(),
        ensures
            final(self).wf(),
            removed == old(self)@.contains(url@),
            final(self)@ == without(old(self)@, url@),
    {
        let ghost before = texts(self.urls@);
        match self.position(url) {
            Some(at) => {
                let _ = self.urls.remove(at);
                proof {
                    assert(texts(self.urls@) =~= before.remove(at as int));
                    lemma_without_one(before, at as int);
                }
                true
            },
            None => {
                proof {
                    lemma_without_none(before, url@);
                }
                false
            },
        }
    }
}

/// Taking out a URL that is not there changes nothing.
proof fn lemma_without_none(urls: Seq<Seq<char>>, url: Seq<char>)
    requires
        !urls.contains(url),
    ensures
        without(urls, url) == urls,
    decreases urls.len(),
{
    reveal(Seq::filter);
    if urls.len() > 0 {
        let rest = urls.drop_last();
        lemma_without_none(rest, url);
    }
}

/// Taking out the URL at position `at` of a sequence that holds it once
/// removes that position and no other.
proof fn lemma_without_one(urls: Seq<Seq<char>>, at: int)
    requires
        urls.no_duplicates(),
        0 <= at < urls.len(),
    ensures
        without(urls, urls[at]) == urls.remove(at),
        urls.remove(at).no_duplicates(),
    decreases urls.len(),
{
    reveal(Seq::filter);
    let url = urls[at];
    let rest = urls.drop_last();
    if at == urls.len() - 1 {
        lemma_without_none(rest, url);
    } else {
        lemma_without_one(rest, at);
    }
}

} // verus!
