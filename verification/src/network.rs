//! Choice of the network interfaces that can be captured on.

use vstd::prelude::*;

use crate::text::text_eq;

verus! {

/// What the interface list needs to know of a network interface.
#[derive(Debug, Clone)]
pub struct InterfaceSummary {
    pub name: String,
    pub has_ipv4: bool,
    pub is_loopback: bool,
    pub is_running: bool,
    pub is_up: bool,
}

/// An interface can be captured on when it has an IPv4 address, is no
/// loopback, and is up and running.
pub open spec fn capturable(i: InterfaceSummary) -> bool {
    i.has_ipv4 && !i.is_loopback && i.is_running && i.is_up
}

/// Positions of the capturable interfaces among `all`, in order.
pub open spec fn capturable_positions(all: Seq<InterfaceSummary>) -> Seq<int>
    decreases all.len(),
{
    if all.len() == 0 {
        Seq::empty()
    } else if capturable(all.last()) {
        capturable_positions(all.drop_last()).push(all.len() - 1)
    } else {
        capturable_positions(all.drop_last())
    }
}

/// Network interface management
pub struct InterfaceManager;

impl InterfaceManager {
    pub fn is_capturable(i: &InterfaceSummary) -> (r: bool)
        ensures
            r == capturable(*i),
    {
        i.has_ipv4 && !i.is_loopback && i.is_running && i.is_up
    }

    /// Positions of the interfaces that can be captured on, in order.
    pub fn capturable_interfaces(all: &Vec<InterfaceSummary>) -> (r: Vec<usize>)
        ensures
            r@.len() == capturable_positions(all@).len(),
            forall|j: int| 0 <= j < r@.len() ==> r@[j] == capturable_positions(all@)[j],
    {
        let mut r: Vec<usize> = Vec::new();
        let mut i: usize = 0;
        assert(all@.take(0) =~= Seq::<InterfaceSummary>::empty());
        while i < all.len()
            invariant
                0 <= i <= all@.len(),
                r@.len() == capturable_positions(all@.take(i as int)).len(),
                forall|j: int|
                    0 <= j < r@.len() ==> r@[j] == capturable_positions(all@.take(i as int))[j],
            decreases all@.len() - i,
        {
            assert(all@.take(i + 1).drop_last() =~= all@.take(i as int));
            assert(all@.take(i + 1).last() == all@[i as int]);
            if Self::is_capturable(&all[i]) {
                r.push(i);
            }
            i = i + 1;
        }
        assert(all@.take(all@.len() as int) =~= all@);
        r
    }

    /// The first capturable interface named `name`, by its position among
    /// `all`.
    pub fn find_interface_by_name(all: &Vec<InterfaceSummary>, name: &str) -> (r: Option<usize>)
        ensures
            match r {
                Some(i) => i < all@.len() && capturable(all@[i as int]) && all@[i as int].name@
                    == name@ && forall|j: int|
                    0 <= j < i ==> !(capturable(#[trigger] all@[j]) && all@[j].name@ == name@),
                None => forall|j: int|
                    0 <= j < all@.len() ==> !(capturable(#[trigger] all@[j]) && all@[j].name@
                        == name@),
            },
    {
        let mut i: usize = 0;
        while i < all.len()
            invariant
                0 <= i <= all@.len(),
                forall|j: int|
                    0 <= j < i ==> !(capturable(#[trigger] all@[j]) && all@[j].name@ == name@),
            decreases all@.len() - i,
        {
            if Self::is_capturable(&all[i]) && text_eq(all[i].name.as_str(), name) {
                return Some(i);
            }
            i = i + 1;
        }
        None
    }

    /// The `index`-th interface that can be captured on, by its position
    /// among `all`.
    pub fn get_interface_by_index(all: &Vec<InterfaceSummary>, index: usize) -> (r: Option<usize>)
        ensures
            match r {
                Some(i) => index < capturable_positions(all@).len() && i == capturable_positions(
                    all@,
                )[index as int],
                None => index >= capturable_positions(all@).len(),
            },
    {
        let positions = Self::capturable_interfaces(all);
        if index < positions.len() {
            Some(positions[index])
        } else {
            None
        }
    }
}

} // verus!
