//! Detection extraction: probed files of one label bucket become detection
//! records, buckets are aggregated into one sequence, and the first failure
//! anywhere fails the whole extraction.

use vstd::prelude::*;
use crate::bytestr::copy_bytes;
use crate::detection::{Detection, DetectionView, detection_views};
use crate::paths::{extract_class, parent_dir_name_spec};

verus! {

/// What a run can fail with.
#[derive(Clone, Copy, Debug, PartialEq, Eq, Structural)]
pub enum PipelineError {
    /// A path is missing, cannot be read, or cannot be resolved.
    IoError,
    /// An image's header could not be parsed.
    DecodeError,
    /// The label-classification table is malformed.
    ConfigError,
    /// The output file could not be created or written.
    ExportError,
}

/// What probing one image file yielded: its pixel dimensions, or the kind of
/// failure.
#[derive(Clone, Copy, Debug, PartialEq, Eq, Structural)]
pub enum ProbeOutcome {
    /// Pixel width and height read from the image header.
    Size(u32, u32),
    /// The file was opened but its header could not be parsed.
    DecodeFailed,
    /// The file could not be opened or read.
    IoFailed,
}

/// One image file handed to extraction: its path and what probing it yielded.
pub struct ProbedFile {
    pub path: Vec<u8>,
    pub outcome: ProbeOutcome,
}

/// The mathematical value of a `ProbedFile`.
pub ghost struct ProbedFileView {
    pub path: Seq<u8>,
    pub outcome: ProbeOutcome,
}

impl View for ProbedFile {
    type V = ProbedFileView;

    open spec fn view(&self) -> ProbedFileView {
        ProbedFileView { path: self.path@, outcome: self.outcome }
    }
}

/// The sequence of views of a sequence of probed files.
pub open spec fn probed_views(s: Seq<ProbedFile>) -> Seq<ProbedFileView> {
    s.map_values(|f: ProbedFile| f@)
}

/// What one probed file becomes: a detection whose raw label is the name of
/// the directory containing the file, or the error that fails the run. A file
/// whose parent directory cannot be resolved is an I/O failure; a probe
/// failure keeps its kind.
pub open spec fn file_spec(f: ProbedFileView) -> Result<DetectionView, PipelineError> {
    match parent_dir_name_spec(f.path) {
        None => Err(PipelineError::IoError),
        Some(label) => match f.outcome {
            ProbeOutcome::Size(w, h) => Ok(
                DetectionView { path: f.path, width: w, height: h, raw_label: label },
            ),
            ProbeOutcome::DecodeFailed => Err(PipelineError::DecodeError),
            ProbeOutcome::IoFailed => Err(PipelineError::IoError),
        },
    }
}

/// What one bucket's probed files become: their detections in file order, or
/// the first file's error.
pub open spec fn bucket_spec(files: Seq<ProbedFileView>) -> Result<
    Seq<DetectionView>,
    PipelineError,
>
    decreases files.len(),
{
    if files.len() == 0 {
        Ok(Seq::empty())
    } else {
        match file_spec(files.first()) {
            Err(e) => Err(e),
            Ok(d) => match bucket_spec(files.drop_first()) {
                Err(e) => Err(e),
                Ok(rest) => Ok(seq![d] + rest),
            },
        }
    }
}

/// What aggregation makes of the buckets' results: the concatenation of their
/// detections in bucket order, or the first bucket's error.
pub open spec fn collect_spec(buckets: Seq<Result<Seq<DetectionView>, PipelineError>>) -> Result<
    Seq<DetectionView>,
    PipelineError,
>
    decreases buckets.len(),
{
    if buckets.len() == 0 {
        Ok(Seq::empty())
    } else {
        match buckets.first() {
            Err(e) => Err(e),
            Ok(dets) => match collect_spec(buckets.drop_first()) {
                Err(e) => Err(e),
                Ok(rest) => Ok(dets + rest),
            },
        }
    }
}

/// The view of one bucket's result.
pub open spec fn bucket_result_view(b: Result<Vec<Detection>, PipelineError>) -> Result<
    Seq<DetectionView>,
    PipelineError,
> {
    match b {
        Ok(dets) => Ok(detection_views(dets@)),
        Err(e) => Err(e),
    }
}

/// Turns the probed files of one label bucket into detection records, in file
/// order, failing on the first file that cannot be resolved or decoded.
pub fn process_bucket(files: &Vec<ProbedFile>) -> (r: Result<Vec<Detection>, PipelineError>)
    ensures
        match r {
            Ok(dets) => bucket_spec(probed_views(files@)) == Ok::<_, PipelineError>(
                detection_views(dets@),
            ),
            Err(e) => bucket_spec(probed_views(files@)) == Err::<Seq<DetectionView>, _>(e),
        },
{
    let mut dets: Vec<Detection> = Vec::new();
    let n = files.len();
    let mut i: usize = 0;
    proof {
        assert(probed_views(files@).skip(0) =~= probed_views(files@));
        match bucket_spec(probed_views(files@)) {
            Ok(rest) => {
                assert(detection_views(dets@) + rest =~= rest);
            },
            Err(_) => {},
        }
    }
    while i < n
        invariant
            n == files@.len(),
            i <= n,
            bucket_spec(probed_views(files@)) == match bucket_spec(
                probed_views(files@).skip(i as int),
            ) {
                Ok(rest) => Ok::<_, PipelineError>(detection_views(dets@) + rest),
                Err(e) => Err::<Seq<DetectionView>, _>(e),
            },
        decreases n - i,
    {
        proof {
            assert(probed_views(files@).skip(i as int).first() == files@[i as int]@);
            assert(probed_views(files@).skip(i as int).drop_first() =~= probed_views(files@).skip(
                i + 1,
            ));
        }
        let file = &files[i];
        let label = match extract_class(&file.path) {
            None => {
                assert(file_spec(files@[i as int]@) == Err::<DetectionView, PipelineError>(
                    PipelineError::IoError,
                ));
                return Err(PipelineError::IoError);
            },
            Some(label) => label,
        };
        match file.outcome {
            ProbeOutcome::Size(w, h) => {
                let d = Detection {
                    path: copy_bytes(&file.path),
                    width: w,
                    height: h,
                    raw_label: label,
                };
                let ghost dv = d@;
                let ghost dets_before = detection_views(dets@);
                proof {
                    assert(file_spec(files@[i as int]@) == Ok::<_, PipelineError>(dv));
                }
                dets.push(d);
                proof {
                    let pv = probed_views(files@);
                    assert(bucket_spec(pv.skip(i as int)) == (match bucket_spec(pv.skip(i + 1)) {
                        Ok(rest) => Ok::<_, PipelineError>(seq![dv] + rest),
                        Err(e) => Err::<Seq<DetectionView>, _>(e),
                    }));
                    assert(detection_views(dets@) =~= dets_before.push(dv));
                    match bucket_spec(pv.skip(i + 1)) {
                        Ok(rest) => {
                            assert(dets_before + (seq![dv] + rest) =~= dets_before.push(dv)
                                + rest);
                        },
                        Err(_) => {},
                    }
                }
            },
            ProbeOutcome::DecodeFailed => {
                assert(file_spec(files@[i as int]@) == Err::<DetectionView, PipelineError>(
                    PipelineError::DecodeError,
                ));
                return Err(PipelineError::DecodeError);
            },
            ProbeOutcome::IoFailed => {
                assert(file_spec(files@[i as int]@) == Err::<DetectionView, PipelineError>(
                    PipelineError::IoError,
                ));
                return Err(PipelineError::IoError);
            },
        }
        i = i + 1;
    }
    proof {
        assert(probed_views(files@).skip(n as int) =~= Seq::<ProbedFileView>::empty());
        assert(detection_views(dets@) + Seq::<DetectionView>::empty() =~= detection_views(dets@));
    }
    Ok(dets)
}

/// Aggregates the buckets' results: the concatenation of their detections in
/// bucket order, or the first bucket's error; no buckets yield no detections
/// and no error.
#[verifier::loop_isolation(false)]
pub fn collect_buckets(buckets: Vec<Result<Vec<Detection>, PipelineError>>) -> (r: Result<
    Vec<Detection>,
    PipelineError,
>)
    ensures
        match r {
            Ok(dets) => collect_spec(
                buckets@.map_values(
                    |b: Result<Vec<Detection>, PipelineError>| bucket_result_view(b),
                ),
            ) == Ok::<_, PipelineError>(detection_views(dets@)),
            Err(e) => collect_spec(
                buckets@.map_values(
                    |b: Result<Vec<Detection>, PipelineError>| bucket_result_view(b),
                ),
            ) == Err::<Seq<DetectionView>, _>(e),
        },
{
    let ghost original: Seq<Result<Vec<Detection>, PipelineError>> = buckets@;
    let ghost full: Seq<Result<Seq<DetectionView>, PipelineError>> = buckets@.map_values(
        |b: Result<Vec<Detection>, PipelineError>| bucket_result_view(b),
    );
    let mut remaining = buckets;
    let mut dets: Vec<Detection> = Vec::new();
    let ghost mut taken: int = 0;
    proof {
        assert(full.skip(0) =~= full);
        assert(remaining@ =~= original.skip(0));
        match collect_spec(full) {
            Ok(rest) => {
                assert(detection_views(dets@) + rest =~= rest);
            },
            Err(_) => {},
        }
    }
    loop
        invariant
            0 <= taken <= full.len(),
            original.len() == full.len(),
            remaining@ =~= original.skip(taken),
            full == original.map_values(
                |b: Result<Vec<Detection>, PipelineError>| bucket_result_view(b),
            ),
            collect_spec(full) == match collect_spec(full.skip(taken)) {
                Ok(rest) => Ok::<_, PipelineError>(detection_views(dets@) + rest),
                Err(e) => Err::<Seq<DetectionView>, _>(e),
            },
        decreases full.len() - taken,
    {
        if remaining.len() == 0 {
            proof {
                assert(taken == full.len());
                assert(full.skip(taken) =~= Seq::<
                    Result<Seq<DetectionView>, PipelineError>,
                >::empty());
                assert(detection_views(dets@) + Seq::<DetectionView>::empty() =~= detection_views(
                    dets@,
                ));
            }
            return Ok(dets);
        }
        proof {
            assert(full.skip(taken).first() == full[taken]);
            assert(full[taken] == bucket_result_view(original[taken]));
            assert(full.skip(taken).drop_first() =~= full.skip(taken + 1));
            assert(remaining@[0] == original[taken]);
        }
        let bucket = remaining.remove(0);
        proof {
            assert(remaining@ =~= original.skip(taken + 1));
        }
        match bucket {
            Err(e) => {
                return Err(e);
            },
            Ok(mut bucket_dets) => {
                let ghost bucket_views: Seq<DetectionView> = detection_views(bucket_dets@);
                let ghost dets_before: Seq<DetectionView> = detection_views(dets@);
                proof {
                    assert(bucket_views.skip(0) =~= bucket_views);
                    assert(dets_before + bucket_views.take(0) =~= dets_before);
                }
                let m = bucket_dets.len();
                let mut j: usize = 0;
                while j < m
                    invariant
                        m == bucket_views.len(),
                        j <= m,
                        bucket_dets@.len() == m - j,
                        detection_views(bucket_dets@) =~= bucket_views.skip(j as int),
                        detection_views(dets@) =~= dets_before + bucket_views.take(j as int),
                    decreases m - j,
                {
                    let ghost old_bd = bucket_dets@;
                    let d = bucket_dets.remove(0);
                    proof {
                        assert(detection_views(old_bd)[0] == d@);
                        assert(d@ == bucket_views[j as int]);
                        assert(bucket_dets@ =~= old_bd.skip(1));
                        assert forall|k: int|
                            0 <= k < bucket_dets@.len() implies #[trigger] detection_views(
                            bucket_dets@,
                        )[k] == bucket_views.skip(j + 1)[k] by {
                            assert(detection_views(bucket_dets@)[k] == bucket_dets@[k]@);
                            assert(bucket_dets@[k] == old_bd[k + 1]);
                            assert(detection_views(old_bd)[k + 1] == old_bd[k + 1]@);
                            assert(detection_views(old_bd)[k + 1] == bucket_views.skip(j as int)[k
                                + 1]);
                        };
                        assert(detection_views(bucket_dets@) =~= bucket_views.skip(j + 1));
                    }
                    dets.push(d);
                    proof {
                        assert(detection_views(dets@) =~= detection_views(dets@.drop_last()).push(
                            d@,
                        ));
                        assert(dets_before + bucket_views.take(j + 1) =~= (dets_before
                            + bucket_views.take(j as int)).push(bucket_views[j as int]));
                    }
                    j = j + 1;
                }
                proof {
                    assert(bucket_views.take(m as int) =~= bucket_views);
                    let taken_before = taken;
                    taken = taken + 1;
                    assert(collect_spec(full.skip(taken_before)) == (match collect_spec(
                        full.skip(taken),
                    ) {
                        Ok(rest) => Ok::<_, PipelineError>(bucket_views + rest),
                        Err(e) => Err::<Seq<DetectionView>, _>(e),
                    }));
                    match collect_spec(full.skip(taken)) {
                        Ok(rest) => {
                            assert((dets_before + bucket_views) + rest =~= dets_before
                                + (bucket_views + rest));
                        },
                        Err(_) => {},
                    }
                }
            },
        }
    }
}

/// Extraction over a root with no label buckets yields an empty detection
/// sequence, not an error.
pub proof fn lemma_no_buckets_no_detections()
    ensures
        collect_spec(Seq::empty()) == Ok::<Seq<DetectionView>, PipelineError>(Seq::empty()),
{
}

/// In a bucket whose earlier files all resolve and decode, a file whose
/// header cannot be parsed fails the whole bucket with a decode error.
pub proof fn lemma_decode_failure_fails_bucket(files: Seq<ProbedFileView>, i: int)
    requires
        0 <= i < files.len(),
        forall|j: int| 0 <= j < i ==> (#[trigger] file_spec(files[j])) is Ok,
        files[i].outcome == ProbeOutcome::DecodeFailed,
        parent_dir_name_spec(files[i].path) is Some,
    ensures
        bucket_spec(files) == Err::<Seq<DetectionView>, PipelineError>(PipelineError::DecodeError),
    decreases i,
{
    if i == 0 {
        assert(file_spec(files.first()) == Err::<DetectionView, PipelineError>(
            PipelineError::DecodeError,
        ));
    } else {
        assert(file_spec(files[0]) is Ok);
        assert(forall|j: int| 0 <= j < i - 1 ==> files.drop_first()[j] == files[j + 1]);
        lemma_decode_failure_fails_bucket(files.drop_first(), i - 1);
    }
}

} // verus!
