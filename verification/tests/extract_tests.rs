use training_manifest::detection::Detection;
use training_manifest::extract::{
    collect_buckets, process_bucket, PipelineError, ProbeOutcome, ProbedFile,
};

fn probed(path: &[u8], outcome: ProbeOutcome) -> ProbedFile {
    ProbedFile {
        path: path.to_vec(),
        outcome,
    }
}

#[test]
fn no_buckets_yield_no_detections_and_no_error() {
    match collect_buckets(vec![]) {
        Ok(dets) => assert_eq!(dets.len(), 0),
        Err(_) => panic!("extraction over zero buckets must not fail"),
    }
}

#[test]
fn bucket_of_probed_files_becomes_detections_in_order() {
    let files = vec![
        probed(b"images/t-80/a.jpg", ProbeOutcome::Size(100, 100)),
        probed(b"images/t-80/b.png", ProbeOutcome::Size(50, 60)),
    ];
    let dets = process_bucket(&files).expect("bucket must succeed");
    assert_eq!(dets.len(), 2);
    assert_eq!(dets[0].path, b"images/t-80/a.jpg".to_vec());
    assert_eq!(dets[0].width, 100);
    assert_eq!(dets[0].height, 100);
    assert_eq!(dets[0].raw_label, b"t-80".to_vec());
    assert_eq!(dets[1].path, b"images/t-80/b.png".to_vec());
    assert_eq!(dets[1].width, 50);
    assert_eq!(dets[1].height, 60);
    assert_eq!(dets[1].raw_label, b"t-80".to_vec());
}

#[test]
fn corrupt_image_fails_the_bucket_with_decode_error() {
    let files = vec![
        probed(b"images/t-80/a.jpg", ProbeOutcome::Size(100, 100)),
        probed(b"images/t-80/broken.jpg", ProbeOutcome::DecodeFailed),
        probed(b"images/t-80/b.png", ProbeOutcome::Size(50, 60)),
    ];
    match process_bucket(&files) {
        Ok(_) => panic!("a corrupt file must fail the bucket"),
        Err(e) => assert_eq!(e, PipelineError::DecodeError),
    }
}

#[test]
fn unreadable_image_fails_the_bucket_with_io_error() {
    let files = vec![probed(b"images/t-80/gone.jpg", ProbeOutcome::IoFailed)];
    match process_bucket(&files) {
        Ok(_) => panic!("an unreadable file must fail the bucket"),
        Err(e) => assert_eq!(e, PipelineError::IoError),
    }
}

#[test]
fn file_without_parent_directory_fails_with_io_error() {
    let files = vec![probed(b"stray.jpg", ProbeOutcome::Size(10, 10))];
    match process_bucket(&files) {
        Ok(_) => panic!("a file without a parent directory must fail"),
        Err(e) => assert_eq!(e, PipelineError::IoError),
    }
}

#[test]
fn first_failing_bucket_fails_the_whole_extraction() {
    let ok_bucket: Result<Vec<Detection>, PipelineError> = Ok(vec![Detection {
        path: b"images/t-80/a.jpg".to_vec(),
        width: 100,
        height: 100,
        raw_label: b"t-80".to_vec(),
    }]);
    let failed: Result<Vec<Detection>, PipelineError> = Err(PipelineError::DecodeError);
    match collect_buckets(vec![ok_bucket, failed]) {
        Ok(_) => panic!("a failing bucket must fail the extraction"),
        Err(e) => assert_eq!(e, PipelineError::DecodeError),
    }
}

#[test]
fn buckets_concatenate_in_order() {
    let bucket = |label: &[u8], name: &[u8]| -> Result<Vec<Detection>, PipelineError> {
        let mut path = b"images/".to_vec();
        path.extend_from_slice(label);
        path.push(b'/');
        path.extend_from_slice(name);
        Ok(vec![Detection {
            path,
            width: 10,
            height: 10,
            raw_label: label.to_vec(),
        }])
    };
    let dets = collect_buckets(vec![bucket(b"t-80", b"a.jpg"), bucket(b"btr-70", b"b.png")])
        .expect("all buckets succeed");
    assert_eq!(dets.len(), 2);
    assert_eq!(dets[0].raw_label, b"t-80".to_vec());
    assert_eq!(dets[1].raw_label, b"btr-70".to_vec());
}
