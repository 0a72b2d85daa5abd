//! The watch-set: the addresses of one exchange whose transfers are
//! aggregated. Membership does not depend on the letter case of an address.

use vstd::prelude::*;
use crate::text::{lowercase_of, to_lowercase};
use crate::models::TransferView;

verus! {

/// Whether two address strings are equal apart from letter case.
pub open spec fn same_address(a: Seq<char>, b: Seq<char>) -> bool {
    lowercase_of(a) == lowercase_of(b)
}

/// The lowercase forms of a list of addresses, in the same order.
pub open spec fn lowered(addresses: Seq<String>) -> Seq<Seq<char>> {
    Seq::new(addresses.len(), |i: int| lowercase_of(addresses[i]@))
}

/// Whether `addr` is one of the lowercase addresses `set`, apart from its
/// letter case.
pub open spec fn watched(set: Seq<Seq<char>>, addr: Seq<char>) -> bool {
    set.contains(lowercase_of(addr))
}

/// Whether the sender or the receiver of a transfer is in the watch-set.
pub open spec fn touches(set: Seq<Seq<char>>, r: TransferView) -> bool {
    watched(set, r.from_addr) || watched(set, r.to_addr)
}

/// Membership does not depend on the letter case of the address asked for.
pub proof fn lemma_membership_ignores_case(set: Seq<Seq<char>>, a: Seq<char>, b: Seq<char>)
    requires
        same_address(a, b),
    ensures
        watched(set, a) == watched(set, b),
{
}

/// Membership does not depend on the letter case of the addresses that the
/// set was built from.
pub proof fn lemma_watch_set_ignores_case(xs: Seq<String>, ys: Seq<String>)
    requires
        xs.len() == ys.len(),
        forall|i: int| 0 <= i < xs.len() ==> same_address(#[trigger] xs[i]@, ys[i]@),
    ensures
        lowered(xs) == lowered(ys),
{
    assert(lowered(xs) =~= lowered(ys));
}

/// An address that equals a listed one apart from letter case is in the set.
pub proof fn lemma_listed_address_is_watched(addresses: Seq<String>, i: int, addr: Seq<char>)
    requires
        0 <= i < addresses.len(),
        same_address(addresses[i]@, addr),
    ensures
        watched(lowered(addresses), addr),
{
    assert(lowered(addresses)[i] == lowercase_of(addr));
}

/// An immutable set of addresses, compared without regard to letter case.
///
/// The view of a watch-set is the list of its addresses in lowercase.
pub struct WatchSet {
    entries: Vec<String>,
}

impl View for WatchSet {
    type V = Seq<Seq<char>>;

    closed spec fn view(&self) -> Seq<Seq<char>> {
        Seq::new(self.entries@.len(), |i: int| self.entries@[i]@)
    }
}

impl WatchSet {
    /// Builds the watch-set of the given addresses.
    pub fn new(addresses: &Vec<String>) -> (set: WatchSet)
        ensures
            set@ == lowered(addresses@),
    {
        let mut entries: Vec<String> = Vec::new();
        let mut i: usize = 0;
        while i < addresses.len()
            invariant
                i <= addresses@.len(),
                entries@.len() == i,
                forall|j: int| 0 <= j < i ==> (#[trigger] entries@[j])@ == lowercase_of(addresses@[j]@),
            decreases addresses@.len() - i,
        {
            entries.push(to_lowercase(addresses[i].as_str()));
            i = i + 1;
        }
        let set = WatchSet { entries };
        proof {
            assert(set@ =~= lowered(addresses@));
        }
        set
    }

    /// The number of addresses given when the set was built.
    pub fn len(&self) -> (n: usize)
        ensures
            n == self@.len(),
    {
        self.entries.len()
    }

    /// Tests whether `addr` belongs to the set, whatever its letter case.
    pub fn contains(&self, addr: &str) -> (b: bool)
        ensures
            b == watched(self@, addr@),
    {
        let needle = to_lowercase(addr);
        let mut i: usize = 0;
        while i < self.entries.len()
            invariant
                i <= self.entries@.len(),
                needle@ == lowercase_of(addr@),
                forall|j: int| 0 <= j < i ==> self@[j] != needle@,
            decreases self.entries@.len() - i,
        {
            if self.entries[i] == needle {
                proof {
                    assert(self@[i as int] == needle@);
                }
                return true;
            }
            i = i + 1;
        }
        false
    }
}

} // verus!
