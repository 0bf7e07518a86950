//! Reporting on raw labels: the distinct raw labels observed over a detection
//! sequence, in order of first appearance.

use vstd::prelude::*;
use iter_tools::Itertools;
use crate::bytestr::{copy_bytes, first_occurrences, views_of};
use crate::detection::{Detection, DetectionView, detection_views};

verus! {

/// Relies on `Itertools::unique` of iter_tools (a re-export of itertools): the
/// adaptor filters out every element equal to an earlier one, so each distinct
/// byte string is yielded once, at its first occurrence, in the input order.
#[verifier::external_body]
pub(crate) fn unique_byte_strings(v: &Vec<Vec<u8>>) -> (r: Vec<Vec<u8>>)
    ensures
        views_of(r@) == first_occurrences(views_of(v@)),
{
    v.iter().unique().cloned().collect()
}

/// The raw labels of the detections, in sequence order.
pub open spec fn raw_labels_of(dets: Seq<DetectionView>) -> Seq<Seq<u8>> {
    dets.map_values(|d: DetectionView| d.raw_label)
}

/// The distinct raw labels among the detections, each at its first
/// occurrence, in order.
pub fn unique_raw_labels(data: &Vec<Detection>) -> (r: Vec<Vec<u8>>)
    ensures
        views_of(r@) == first_occurrences(raw_labels_of(detection_views(data@))),
{
    let ghost all: Seq<Seq<u8>> = raw_labels_of(detection_views(data@));
    let mut labels: Vec<Vec<u8>> = Vec::new();
    let n = data.len();
    let mut i: usize = 0;
    proof {
        assert(views_of(labels@) =~= all.take(0));
    }
    while i < n
        invariant
            n == data@.len(),
            i <= n,
            all == raw_labels_of(detection_views(data@)),
            views_of(labels@) == all.take(i as int),
        decreases n - i,
    {
        let ghost labels_before = views_of(labels@);
        let l = copy_bytes(&data[i].raw_label);
        proof {
            assert(detection_views(data@)[i as int] == data@[i as int]@);
            assert(l@ == all[i as int]);
        }
        labels.push(l);
        proof {
            assert(views_of(labels@) =~= labels_before.push(all[i as int]));
            assert(all.take(i + 1) =~= all.take(i as int).push(all[i as int]));
        }
        i = i + 1;
    }
    proof {
        assert(all.take(n as int) =~= all);
    }
    unique_byte_strings(&labels)
}

} // verus!
