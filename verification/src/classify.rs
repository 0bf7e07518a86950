//! The label classifier: an ordered table of label groups, each mapping a set
//! of raw labels to one canonical class name. Lookup scans the groups in table
//! order and the first group holding the label decides.

use vstd::prelude::*;
use crate::bytestr::{bytes_eq, contains_bytes, copy_bytes, views_of};

verus! {

/// A canonical class name together with the raw labels that map to it.
pub struct LabelGroup {
    pub class: Vec<u8>,
    pub labels: Vec<Vec<u8>>,
}

/// The mathematical value of a `LabelGroup`.
pub ghost struct GroupView {
    pub class: Seq<u8>,
    pub labels: Seq<Seq<u8>>,
}

impl View for LabelGroup {
    type V = GroupView;

    open spec fn view(&self) -> GroupView {
        GroupView { class: self.class@, labels: views_of(self.labels@) }
    }
}

/// An ordered collection of label groups, loaded once and read-only afterward.
pub struct LabelClassification {
    pub groups: Vec<LabelGroup>,
}

impl View for LabelClassification {
    type V = Seq<GroupView>;

    open spec fn view(&self) -> Seq<GroupView> {
        self.groups@.map_values(|g: LabelGroup| g@)
    }
}

/// The class of the first group, in table order, whose labels contain `label`;
/// `None` when no group does.
pub open spec fn classify_spec(groups: Seq<GroupView>, label: Seq<u8>) -> Option<Seq<u8>>
    decreases groups.len(),
{
    if groups.len() == 0 {
        None
    } else if groups.first().labels.contains(label) {
        Some(groups.first().class)
    } else {
        classify_spec(groups.drop_first(), label)
    }
}

/// When no group before index `i` holds the label, the lookup is decided by
/// the groups from `i` on.
proof fn lemma_classify_skip(groups: Seq<GroupView>, label: Seq<u8>, i: int)
    requires
        0 <= i <= groups.len(),
        forall|j: int| 0 <= j < i ==> !(#[trigger] groups[j]).labels.contains(label),
    ensures
        classify_spec(groups, label) == classify_spec(groups.skip(i), label),
    decreases i,
{
    if i == 0 {
        assert(groups.skip(0) =~= groups);
    } else {
        lemma_classify_skip(groups, label, i - 1);
        assert(groups.skip(i - 1).first() == groups[i - 1]);
        assert(groups.skip(i - 1).drop_first() =~= groups.skip(i));
    }
}

impl LabelClassification {
    /// Looks the raw label up: the class name of the first group whose labels
    /// contain it, in table order; `None` when the label is unconfigured.
    pub fn get_class(&self, label: &Vec<u8>) -> (r: Option<Vec<u8>>)
        ensures
            match r {
                Some(class) => classify_spec(self@, label@) == Some(class@),
                None => classify_spec(self@, label@) is None,
            },
    {
        let n = self.groups.len();
        let mut i: usize = 0;
        while i < n
            invariant
                n == self.groups@.len(),
                i <= n,
                forall|j: int| 0 <= j < i ==> !(#[trigger] self@[j]).labels.contains(label@),
            decreases n - i,
        {
            if contains_bytes(&self.groups[i].labels, label) {
                proof {
                    lemma_classify_skip(self@, label@, i as int);
                    assert(self@.skip(i as int).first() == self@[i as int]);
                }
                return Some(copy_bytes(&self.groups[i].class));
            }
            assert(self@[i as int].labels == views_of(self.groups@[i as int].labels@));
            i = i + 1;
        }
        proof {
            lemma_classify_skip(self@, label@, n as int);
            assert(self@.skip(n as int) =~= Seq::<GroupView>::empty());
        }
        None
    }
}

} // verus!
