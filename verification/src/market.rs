use vstd::prelude::*;
use crate::keyed::{find_key, lemma_find_key};

verus! {

/// The best bid and ask of one outcome token, in micro-dollars.
#[derive(Debug, Clone, Copy, PartialEq, Eq, Structural)]
pub struct TokenPrice {
    pub bid: Option<u32>,
    pub ask: Option<u32>,
}

/// The midpoint of bid and ask in half micro-dollars (that is, bid plus
/// ask), when both are quoted.
pub open spec fn mid_halves(p: TokenPrice) -> Option<u64> {
    match (p.bid, p.ask) {
        (Some(b), Some(a)) => Some((b as int + a as int) as u64),
        _ => None,
    }
}

impl TokenPrice {
    /// The exact midpoint of bid and ask, in half micro-dollars.
    pub fn mid_price_halves(&self) -> (r: Option<u64>)
        ensures
            r == mid_halves(*self),
            r matches Some(m) ==> m <= 2 * 0xFFFF_FFFFu64,
    {
        match (self.bid, self.ask) {
            (Some(b), Some(a)) => Some(b as u64 + a as u64),
            _ => None,
        }
    }
}

/// Current prices by token id, one entry per token.
pub struct PriceBook {
    entries: Vec<(String, TokenPrice)>,
}

/// The price recorded for `token` in a book whose entries are `book`.
pub open spec fn price_in(book: Seq<(Seq<char>, TokenPrice)>, token: Seq<char>) -> Option<TokenPrice> {
    let i = find_key(book.map_values(|e: (Seq<char>, TokenPrice)| e.0), token);
    if i >= 0 { Some(book[i].1) } else { None }
}

pub open spec fn book_keys(book: Seq<(Seq<char>, TokenPrice)>) -> Seq<Seq<char>> {
    book.map_values(|e: (Seq<char>, TokenPrice)| e.0)
}

impl View for PriceBook {
    type V = Seq<(Seq<char>, TokenPrice)>;

    closed spec fn view(&self) -> Seq<(Seq<char>, TokenPrice)> {
        self.entries@.map_values(|e: (String, TokenPrice)| (e.0@, e.1))
    }
}

impl PriceBook {
    pub closed spec fn wf(&self) -> bool {
        book_keys(self@).no_duplicates()
    }

    pub fn new() -> (r: Self)
        ensures
            r.wf(),
            r@ == Seq::<(Seq<char>, TokenPrice)>::empty(),
    {
        let r = PriceBook { entries: Vec::new() };
        assert(r@ =~= Seq::<(Seq<char>, TokenPrice)>::empty());
        r
    }

    fn position_of(&self, token_id: &String) -> (r: Option<usize>)
        requires
            self.wf(),
        ensures
            r is Some <==> find_key(book_keys(self@), token_id@) >= 0,
            r matches Some(i) ==> i == find_key(book_keys(self@), token_id@) && i < self@.len(),
    {
        proof {
            lemma_find_key(book_keys(self@), token_id@);
        }
        let mut i: usize = 0;
        while i < self.entries.len()
            invariant
                i <= self.entries@.len(),
                self.wf(),
                self@.len() == self.entries@.len(),
                find_key(book_keys(self@), token_id@) == -1 <==> (forall|j: int| 0 <= j < book_keys(self@).len() ==> book_keys(self@)[j] != token_id@),
                forall|j: int| 0 <= j < i ==> book_keys(self@)[j] != token_id@,
            decreases self.entries@.len() - i,
        {
            if self.entries[i].0 == *token_id {
                proof {
                    assert(book_keys(self@)[i as int] == token_id@);
                    lemma_find_key(book_keys(self@), token_id@);
                }
                return Some(i);
            }
            i = i + 1;
        }
        None
    }

    /// Records the price of a token, replacing any earlier one.
    pub fn insert(&mut self, token_id: String, price: TokenPrice)
        requires
            old(self).wf(),
        ensures
            final(self).wf(),
            forall|t: Seq<char>| #[trigger] price_in(final(self)@, t) == if t == token_id@ {
                Some(price)
            } else {
                price_in(old(self)@, t)
            },
    {
        let ghost old_view = self@;
        let ghost k = token_id@;
        proof {
            lemma_find_key(book_keys(old_view), k);
        }
        match self.position_of(&token_id) {
            Some(i) => {
                self.entries.set(i, (token_id, price));
                proof {
                    assert(self@ =~= old_view.update(i as int, (k, price)));
                    assert(book_keys(self@) =~= book_keys(old_view));
                    assert forall|t: Seq<char>| #[trigger] price_in(self@, t) == if t == k {
                        Some(price)
                    } else {
                        price_in(old_view, t)
                    } by {
                        lemma_find_key(book_keys(self@), t);
                    }
                }
            },
            None => {
                self.entries.push((token_id, price));
                proof {
                    assert(self@ =~= old_view.push((k, price)));
                    assert(book_keys(self@) =~= book_keys(old_view).push(k));
                    lemma_find_key(book_keys(old_view), k);
                    assert(book_keys(self@).drop_last() =~= book_keys(old_view));
                    assert forall|t: Seq<char>| #[trigger] price_in(self@, t) == if t == k {
                        Some(price)
                    } else {
                        price_in(old_view, t)
                    } by {
                        if t != k {
                            lemma_find_key(book_keys(old_view), t);
                        }
                    }
                }
            },
        }
    }

    /// The price recorded for a token.
    pub fn get(&self, token_id: &String) -> (r: Option<TokenPrice>)
        requires
            self.wf(),
        ensures
            r == price_in(self@, token_id@),
    {
        match self.position_of(token_id) {
            Some(i) => Some(self.entries[i].1),
            None => None,
        }
    }

    pub fn is_empty(&self) -> (r: bool)
        ensures
            r == (self@.len() == 0),
    {
        self.entries.len() == 0
    }

    pub fn len(&self) -> (r: usize)
        ensures
            r == self@.len(),
    {
        self.entries.len()
    }
}

} // verus!
