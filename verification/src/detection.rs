//! The detection record: one observed image, created by extraction, consumed
//! by the exporter.

use vstd::prelude::*;

verus! {

/// One observed image: its path, its pixel dimensions, and the raw label (the
/// name of the directory that contained it at discovery time).
pub struct Detection {
    pub path: Vec<u8>,
    pub width: u32,
    pub height: u32,
    pub raw_label: Vec<u8>,
}

/// The mathematical value of a `Detection`.
pub ghost struct DetectionView {
    pub path: Seq<u8>,
    pub width: u32,
    pub height: u32,
    pub raw_label: Seq<u8>,
}

impl View for Detection {
    type V = DetectionView;

    open spec fn view(&self) -> DetectionView {
        DetectionView {
            path: self.path@,
            width: self.width,
            height: self.height,
            raw_label: self.raw_label@,
        }
    }
}

/// The sequence of views of a sequence of detections.
pub open spec fn detection_views(s: Seq<Detection>) -> Seq<DetectionView> {
    s.map_values(|d: Detection| d@)
}

} // verus!
