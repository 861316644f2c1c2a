//! The result sink of a scan: it takes the found URLs while the jobs run
//! and hands them out once no more can come.

use crate::web::{texts, url_text};
use url::Url;
use vstd::prelude::*;

verus! {

/// The URLs found so far, and whether more may come.
pub struct Sink {
    items: Vec<Url>,
    closed: bool,
}

impl Sink {
    /// The serializations of the URLs that wait to be handed out, in the
    /// order in which they came.
    pub closed spec fn pending(&self) -> Seq<Seq<char>> {
        texts(self.items@)
    }

    /// Whether the sink has been closed: no job is left that could add a
    /// URL.
    pub closed spec fn is_closed(&self) -> bool {
        self.closed
    }

    /// An empty sink that is open.
    pub fn new() -> (s: Sink)
        ensures
            s.pending() == Seq::<Seq<char>>::empty(),
            !s.is_closed(),
    {
        let s = Sink { items: Vec::new(), closed: false };
        assert(s.pending() =~= Seq::<Seq<char>>::empty());
        s
    }

    /// Takes a URL from a job. A closed sink takes nothing and answers
    /// `false`.
    pub fn push(&mut self, url: Url) -> (taken: bool)
        ensures
            taken == !old(self).is_closed(),
            final(self).is_closed() == old(self).is_closed(),
            final(self).pending() == if taken {
                old(self).pending().push(url_text(url))
            } else {
                old(self).pending()
            },
    {
        if self.closed {
            false
        } else {
            let ghost before = self.pending();
            self.items.push(url);
            assert(self.pending() =~= before.push(url_text(url)));
            true
        }
    }

    /// Closes the sink: every job has ended.
    pub fn close(&mut self)
        ensures
            final(self).is_closed(),
            final(self).pending() == old(self).pending(),
    {
        self.closed = true;
    }

    /// Hands out what has come, in the order in which it came, and keeps
    /// nothing. While the sink is open nothing is handed out and nothing
    /// changes.
    pub fn drain(&mut self) -> (r: Option<Vec<Url>>)
        ensures
            final(self).is_closed() == old(self).is_closed(),
            match r {
                Some(urls) => {
                    &&& old(self).is_closed()
                    &&& texts(urls@) == old(self).pending()
                    &&& final(self).pending() == Seq::<Seq<char>>::empty()
                },
                None => !old(self).is_closed() && final(self).pending() == old(self).pending(),
            },
    {
        if self.closed {
            let mut urls: Vec<Url> = Vec::new();
            std::mem::swap(&mut urls, &mut self.items);
            assert(self.pending() =~= Seq::<Seq<char>>::empty());
            Some(urls)
        } else {
            None
        }
    }
}

} // verus!
