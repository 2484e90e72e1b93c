//! The keyboard layouts that the desktop knows.

use vstd::prelude::*;

use crate::text;

verus! {

/// The layouts of the desktop, in its order. A layout is chosen by its place in the list.
#[derive(Debug, Clone)]
pub struct KwinLayout {
    names: Vec<String>,
}

impl View for KwinLayout {
    /// The xkb names of the layouts.
    type V = Seq<Seq<char>>;

    closed spec fn view(&self) -> Seq<Seq<char>> {
        text::texts(self.names@)
    }
}

/// The last place of the name in the list, if it is there.
pub open spec fn place_of(names: Seq<Seq<char>>, name: Seq<char>) -> Option<int>
    decreases names.len(),
{
    if names.len() == 0 {
        None
    } else if names.last() == name {
        Some(names.len() - 1)
    } else {
        place_of(names.drop_last(), name)
    }
}

impl KwinLayout {
    /// Every place in the list can be handed to the desktop.
    pub open spec fn wf(&self) -> bool {
        self@.len() <= u32::MAX
    }

    /// The layouts with the given xkb names.
    pub fn new(names: Vec<String>) -> (k: KwinLayout)
        requires
            names@.len() <= u32::MAX,
        ensures
            k@ == text::texts(names@),
            k.wf(),
    {
        KwinLayout { names }
    }

    /// The place of the layout with that xkb name. Where a name occurs twice, the last place
    /// counts.
    pub fn index_of(&self, name: &str) -> (r: Option<u32>)
        requires
            self.wf(),
        ensures
            match r {
                Some(i) => place_of(self@, name@) == Some(i as int),
                None => place_of(self@, name@) is None,
            },
    {
        let ghost list = self@;
        let mut n: usize = self.names.len();
        proof {
            assert(list.take(n as int) =~= list);
        }
        while n > 0
            invariant
                list == text::texts(self.names@),
                list.len() <= u32::MAX,
                0 <= n <= list.len(),
                place_of(list.take(n as int), name@) == place_of(list, name@),
            decreases n,
        {
            proof {
                let front = list.take(n as int);
                assert(front.last() == list[n - 1]);
                assert(front.drop_last() =~= list.take(n - 1));
            }
            if text::same_text(self.names[n - 1].as_str(), name) {
                return Some((n - 1) as u32);
            }
            n -= 1;
        }
        None
    }
}

/// The place of a layout in the list is the last one that holds it; there is none exactly when the
/// list does not hold it.
pub proof fn law_place_holds_the_name(names: Seq<Seq<char>>, name: Seq<char>)
    ensures
        place_of(names, name) is None <==> !names.contains(name),
        place_of(names, name) matches Some(i) ==> 0 <= i < names.len() && names[i] == name && (
        forall|k: int| i < k < names.len() ==> #[trigger] names[k] != name),
    decreases names.len(),
{
    if names.len() > 0 {
        let front = names.drop_last();
        law_place_holds_the_name(front, name);
        if front.contains(name) {
            let k = front.index_of(name);
            assert(names[k] == name);
        }
        if names.contains(name) && names.last() != name {
            let k = names.index_of(name);
            assert(front[k] == name);
        }
        if names.last() == name {
            assert(names[names.len() - 1] == name);
        } else if let Some(i) = place_of(front, name) {
            assert forall|k: int| i < k < names.len() implies #[trigger] names[k] != name by {
                if k < front.len() {
                    assert(front[k] == names[k]);
                }
            }
        }
    }
}

} // verus!
