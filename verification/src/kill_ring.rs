//! The ring of killed texts.

use vstd::prelude::*;

use crate::text;

verus! {

/// The killed texts, the latest last.
pub struct KillRing {
    pub entries: Vec<String>,
}

impl View for KillRing {
    type V = Seq<Seq<char>>;

    open spec fn view(&self) -> Seq<Seq<char>> {
        text::texts(self.entries@)
    }
}

/// A ring with one more killed text. To accumulate is to add to the latest
/// entry, before or behind it; nothing is no text.
pub open spec fn pushed(
    ring: Seq<Seq<char>>,
    killed: Seq<char>,
    prepend: bool,
    accumulate: bool,
) -> Seq<Seq<char>> {
    if killed.len() == 0 {
        ring
    } else if accumulate && ring.len() > 0 {
        ring.update(
            ring.len() - 1,
            if prepend {
                killed + ring.last()
            } else {
                ring.last() + killed
            },
        )
    } else {
        ring.push(killed)
    }
}

/// A ring with its latest entry moved to the front.
pub open spec fn rotated(ring: Seq<Seq<char>>) -> Seq<Seq<char>> {
    if ring.len() > 1 {
        seq![ring.last()] + ring.drop_last()
    } else {
        ring
    }
}

impl KillRing {
    /// An empty ring.
    pub fn new() -> (r: KillRing)
        ensures
            r@ == Seq::<Seq<char>>::empty(),
    {
        let r = KillRing { entries: Vec::new() };
        assert(r@ =~= Seq::<Seq<char>>::empty());
        r
    }

    /// How many entries there are.
    pub fn len(&self) -> (r: usize)
        ensures
            r == self@.len(),
    {
        assert(self@.len() == self.entries@.len());
        self.entries.len()
    }

    /// The latest entry.
    pub fn peek(&self) -> (r: Option<&str>)
        ensures
            text::opt_str(r) == (if self@.len() == 0 {
                None
            } else {
                Some(self@.last())
            }),
    {
        assert(self@.len() == self.entries@.len());
        if self.entries.len() == 0 {
            None
        } else {
            assert(self@.last() == self.entries@[self.entries@.len() - 1]@);
            Some(self.entries[self.entries.len() - 1].as_str())
        }
    }

    /// Adds a killed text.
    pub fn push(&mut self, killed: &str, prepend: bool, accumulate: bool)
        ensures
            final(self)@ == pushed(old(self)@, killed@, prepend, accumulate),
    {
        assert(self@.len() == self.entries@.len());
        if killed.unicode_len() == 0 {
            return;
        }
        let n = self.entries.len();
        if accumulate && n > 0 {
            assert(self@.last() == self.entries@[n - 1]@);
            let entry = if prepend {
                text::cat(killed, self.entries[n - 1].as_str())
            } else {
                text::cat(self.entries[n - 1].as_str(), killed)
            };
            let ghost new = entry@;
            self.entries.set(n - 1, entry);
            assert(self@ =~= old(self)@.update(n - 1, new));
        } else {
            text::push_text(&mut self.entries, killed);
        }
    }

    /// Moves the latest entry to the front.
    pub fn rotate(&mut self)
        ensures
            final(self)@ == rotated(old(self)@),
    {
        assert(self@.len() == self.entries@.len());
        if self.entries.len() > 1 {
            let n = self.entries.len();
            let latest = self.entries.remove(n - 1);
            assert(latest@ == old(self)@.last());
            self.entries.insert(0, latest);
            assert(self@ =~= seq![old(self)@.last()] + old(self)@.drop_last());
        }
    }
}

/// To rotate a ring loses no entry.
pub proof fn lemma_rotation_keeps_entries(ring: Seq<Seq<char>>)
    ensures
        rotated(ring).to_multiset() == ring.to_multiset(),
        rotated(ring).len() == ring.len(),
{
    broadcast use vstd::seq_lib::group_to_multiset_ensures;

    if ring.len() > 1 {
        let last = seq![ring.last()];
        let rest = ring.drop_last();
        vstd::seq_lib::lemma_multiset_commutative(last, rest);
        vstd::seq_lib::lemma_multiset_commutative(rest, last);
        assert(rest + last =~= ring);
    }
}

} // verus!
