use training_manifest::classify::{LabelClassification, LabelGroup};
use training_manifest::detection::Detection;
use training_manifest::export::export;
use training_manifest::report::unique_raw_labels;

fn detection(path: &[u8], width: u32, height: u32, raw_label: &[u8]) -> Detection {
    Detection {
        path: path.to_vec(),
        width,
        height,
        raw_label: raw_label.to_vec(),
    }
}

fn table() -> LabelClassification {
    LabelClassification {
        groups: vec![
            LabelGroup {
                class: b"tank".to_vec(),
                labels: vec![b"t-80".to_vec(), b"t-90".to_vec()],
            },
            LabelGroup {
                class: b"lav".to_vec(),
                labels: vec![b"btr-70".to_vec()],
            },
        ],
    }
}

fn sample_detections() -> Vec<Detection> {
    vec![
        detection(b"images/t-80/a.jpg", 100, 100, b"t-80"),
        detection(b"images/t-80/b.png", 50, 60, b"t-80"),
        detection(b"images/unknown/c.bmp", 10, 10, b"unknown"),
    ]
}

#[test]
fn end_to_end_manifest_rows_and_skipped_labels() {
    let out = export(&sample_detections(), &table(), 80);
    let expected = b"filename,width,height,class,xmin,ymin,xmax,ymax\n\
t-80/a.jpg,100,100,tank,10,10,90,90\n\
t-80/b.png,50,60,tank,5,6,45,54\n";
    assert_eq!(out.csv, expected.to_vec());
    assert_eq!(out.rows, 2);
    assert_eq!(out.skipped, vec![b"unknown".to_vec()]);
}

#[test]
fn export_of_no_detections_is_just_the_header() {
    let out = export(&vec![], &table(), 80);
    assert_eq!(out.csv, b"filename,width,height,class,xmin,ymin,xmax,ymax\n".to_vec());
    assert_eq!(out.rows, 0);
    assert_eq!(out.skipped, Vec::<Vec<u8>>::new());
}

#[test]
fn export_twice_is_byte_identical() {
    let dets = sample_detections();
    let t = table();
    let first = export(&dets, &t, 80);
    let second = export(&dets, &t, 80);
    assert_eq!(first.csv, second.csv);
    assert_eq!(first.skipped, second.skipped);
    assert_eq!(first.rows, second.rows);
}

#[test]
fn fields_with_commas_and_quotes_are_csv_quoted() {
    let dets = vec![detection(b"images/od,d/a\"b.jpg", 4, 4, b"od,d")];
    let t = LabelClassification {
        groups: vec![LabelGroup {
            class: b"cl,as\"s".to_vec(),
            labels: vec![b"od,d".to_vec()],
        }],
    };
    let out = export(&dets, &t, 100);
    let expected = b"filename,width,height,class,xmin,ymin,xmax,ymax\n\
\"od,d/a\"\"b.jpg\",4,4,\"cl,as\"\"s\",0,0,4,4\n";
    assert_eq!(out.csv, expected.to_vec());
}

#[test]
fn skipped_labels_are_distinct_in_first_occurrence_order() {
    let dets = vec![
        detection(b"images/zeta/a.jpg", 2, 2, b"zeta"),
        detection(b"images/alpha/b.jpg", 2, 2, b"alpha"),
        detection(b"images/zeta/c.jpg", 2, 2, b"zeta"),
    ];
    let out = export(&dets, &table(), 80);
    assert_eq!(out.rows, 0);
    assert_eq!(out.skipped, vec![b"zeta".to_vec(), b"alpha".to_vec()]);
}

#[test]
fn unique_raw_labels_reports_each_label_once() {
    let labels = unique_raw_labels(&sample_detections());
    assert_eq!(labels, vec![b"t-80".to_vec(), b"unknown".to_vec()]);
}

#[test]
fn unique_raw_labels_of_no_detections_is_empty() {
    let labels = unique_raw_labels(&vec![]);
    assert_eq!(labels, Vec::<Vec<u8>>::new());
}

#[test]
fn detection_without_label_directory_keeps_its_whole_path() {
    let dets = vec![detection(b"t-80/a.jpg", 100, 100, b"t-80")];
    let out = export(&dets, &table(), 80);
    let expected = b"filename,width,height,class,xmin,ymin,xmax,ymax\n\
t-80/a.jpg,100,100,tank,10,10,90,90\n";
    assert_eq!(out.csv, expected.to_vec());
}
