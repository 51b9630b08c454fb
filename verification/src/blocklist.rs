//! Servers that could not be connected to, kept as plain text (one `ip:port` per line) so the file
//! stays human-editable. The file itself is read and written by the caller.

use vstd::prelude::*;
use std::collections::BTreeSet;
use crate::model::Addr;
use crate::addrset::{
    addrs_in_text, addrs_of_keys, contains_key, keys_valid, lemma_keys_of, lines_text,
    lines_text_of, listing_of, parse_addr_lines, sorted_listing, sorted_by_key, toggle_key, toggled,
};

verus! {

broadcast use vstd::std_specs::btree::group_btree_axioms;

/// The file the set is kept in, beside the program.
pub const FILE: &'static str = "blocklist.txt";

/// Servers that could not be connected to ("anti-favourites"), shown but de-emphasised.
pub struct Blocklist {
    set: BTreeSet<u64>,
}

impl View for Blocklist {
    type V = Set<Addr>;

    closed spec fn view(&self) -> Set<Addr> {
        addrs_of_keys(self.set@)
    }
}

impl Blocklist {
    #[verifier::type_invariant]
    spec fn inv(self) -> bool {
        keys_valid(self.set@)
    }

    /// Nothing blocked.
    pub fn new() -> (f: Blocklist)
        ensures
            f@ == Set::<Addr>::empty(),
    {
        let f = Blocklist { set: BTreeSet::new() };
        assert(f@ =~= Set::<Addr>::empty());
        f
    }

    /// Blocklist from the text of the blocklist file (empty when the file is missing).
    /// Lines that do not read as `ip:port` once trimmed are skipped, so a malformed
    /// file never blocks startup.
    pub fn load(body: &str) -> (f: Blocklist)
        ensures
            f@ == addrs_in_text(body@),
    {
        let set = parse_addr_lines(body);
        proof {
            lemma_keys_of(set@, addrs_in_text(body@));
        }
        Blocklist { set }
    }

    /// The text to save: one `ip:port` per line, in address order.
    pub fn to_text(&self) -> (s: String)
        ensures
            s@ == lines_text(sorted_listing(self@)),
            sorted_listing(self@).to_set() == self@,
    {
        proof {
            use_type_invariant(self);
        }
        let q = listing_of(&self.set);
        lines_text_of(&q)
    }

    /// Flips blocked state for an address and returns the new state; the caller
    /// saves the text afterwards.
    pub fn toggle(&mut self, addr: Addr) -> (now_blocked: bool)
        ensures
            now_blocked == !old(self)@.contains(addr),
            final(self)@ == toggled(old(self)@, addr),
    {
        proof {
            use_type_invariant(&*self);
        }
        let mut set = BTreeSet::new();
        std::mem::swap(&mut set, &mut self.set);
        let now = toggle_key(&mut set, addr);
        self.set = set;
        now
    }

    /// Whether an address is blocked.
    pub fn contains(&self, addr: &Addr) -> (r: bool)
        ensures
            r == self@.contains(*addr),
    {
        contains_key(&self.set, addr)
    }

    /// The blocked addresses, in address order.
    pub fn addrs(&self) -> (r: Vec<Addr>)
        ensures
            r@ == sorted_listing(self@),
            sorted_by_key(r@),
            r@.to_set() == self@,
    {
        proof {
            use_type_invariant(self);
        }
        listing_of(&self.set)
    }
}

impl Default for Blocklist {
    fn default() -> (f: Blocklist)
        ensures
            f@ == Set::<Addr>::empty(),
    {
        Blocklist::new()
    }
}

} // verus!
