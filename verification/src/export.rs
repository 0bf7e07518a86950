//! The manifest exporter: joins each detection against the label classifier,
//! drops records whose raw label is unconfigured, computes the bounding box,
//! and renders the CSV manifest bytes, reporting the skipped raw labels.
//!
//! Fields are encoded by standard CSV rules: a field holding a double quote,
//! comma, line feed or carriage return is wrapped in double quotes with inner
//! quotes doubled; rows end in a line feed.

use vstd::prelude::*;
use crate::bbox::{bbox_spec, calculate_bounding_box};
use crate::bytestr::{copy_bytes, first_occurrences, push_bytes, views_of};
use crate::classify::{GroupView, LabelClassification, classify_spec};
use crate::detection::{Detection, DetectionView, detection_views};
use crate::paths::{get_base_dir, get_relative_filename, label_relative_spec};
use crate::report::unique_byte_strings;

verus! {

/// Double quote byte, `"`.
pub const QUOTE: u8 = 34;

/// Comma byte, the field separator.
pub const COMMA: u8 = 44;

/// Line feed byte, the row terminator.
pub const LINE_FEED: u8 = 10;

/// Carriage return byte.
pub const CARRIAGE_RETURN: u8 = 13;

/// Whether a CSV field must be quoted: it holds a quote, a comma, a line feed
/// or a carriage return.
pub open spec fn needs_quoting(f: Seq<u8>) -> bool {
    exists|i: int|
        0 <= i < f.len() && (f[i] == QUOTE || f[i] == COMMA || f[i] == LINE_FEED || f[i]
            == CARRIAGE_RETURN)
}

/// `f` with every double quote doubled.
pub open spec fn escape_quotes(f: Seq<u8>) -> Seq<u8>
    decreases f.len(),
{
    if f.len() == 0 {
        Seq::empty()
    } else {
        escape_quotes(f.drop_last()) + if f.last() == QUOTE {
            seq![QUOTE, QUOTE]
        } else {
            seq![f.last()]
        }
    }
}

/// A field as it stands in the CSV output: quoted and escaped when necessary,
/// bare otherwise.
pub open spec fn encode_field(f: Seq<u8>) -> Seq<u8> {
    if needs_quoting(f) {
        seq![QUOTE] + escape_quotes(f) + seq![QUOTE]
    } else {
        f
    }
}

/// The decimal digits of `n`, most significant first.
pub open spec fn dec_str(n: nat) -> Seq<u8>
    decreases n,
{
    if n < 10 {
        seq![(48 + n) as u8]
    } else {
        dec_str(n / 10).push((48 + n % 10) as u8)
    }
}

/// The header row: `filename,width,height,class,xmin,ymin,xmax,ymax` and a
/// line feed.
pub open spec fn csv_header() -> Seq<u8> {
    seq![
        102u8, 105u8, 108u8, 101u8, 110u8, 97u8, 109u8, 101u8, 44u8, 119u8, 105u8, 100u8, 116u8,
        104u8, 44u8, 104u8, 101u8, 105u8, 103u8, 104u8, 116u8, 44u8, 99u8, 108u8, 97u8, 115u8,
        115u8, 44u8, 120u8, 109u8, 105u8, 110u8, 44u8, 121u8, 109u8, 105u8, 110u8, 44u8, 120u8,
        109u8, 97u8, 120u8, 44u8, 121u8, 109u8, 97u8, 120u8, 10u8,
    ]
}

/// One manifest row for a classified detection: the filename relative to the
/// scan root, the pixel dimensions, the canonical class, and the bounding-box
/// corners, comma-separated and ended by a line feed.
pub open spec fn row_bytes(d: DetectionView, class: Seq<u8>, coverage: int) -> Seq<u8> {
    let corners = bbox_spec(d.width as int, d.height as int, coverage);
    encode_field(label_relative_spec(d.path)) + seq![COMMA] + dec_str(d.width as nat)
        + seq![COMMA] + dec_str(d.height as nat) + seq![COMMA] + encode_field(class)
        + seq![COMMA] + dec_str(corners.0 as nat) + seq![COMMA] + dec_str(corners.1 as nat)
        + seq![COMMA] + dec_str(corners.2 as nat) + seq![COMMA] + dec_str(corners.3 as nat)
        + seq![LINE_FEED]
}

/// The data rows of the manifest: one row per detection whose raw label
/// classifies, in detection order; unclassified detections leave no row.
pub open spec fn manifest_rows(dets: Seq<DetectionView>, groups: Seq<GroupView>, coverage: int) -> Seq<
    u8,
>
    decreases dets.len(),
{
    if dets.len() == 0 {
        Seq::empty()
    } else {
        manifest_rows(dets.drop_last(), groups, coverage) + match classify_spec(
            groups,
            dets.last().raw_label,
        ) {
            Some(class) => row_bytes(dets.last(), class, coverage),
            None => Seq::empty(),
        }
    }
}

/// The whole manifest: the header row followed by the data rows.
pub open spec fn manifest_csv(dets: Seq<DetectionView>, groups: Seq<GroupView>, coverage: int) -> Seq<
    u8,
> {
    csv_header() + manifest_rows(dets, groups, coverage)
}

/// The raw labels of the detections that do not classify, in detection order,
/// with repetitions.
pub open spec fn skipped_of(dets: Seq<DetectionView>, groups: Seq<GroupView>) -> Seq<Seq<u8>>
    decreases dets.len(),
{
    if dets.len() == 0 {
        Seq::empty()
    } else {
        let prefix = skipped_of(dets.drop_last(), groups);
        if classify_spec(groups, dets.last().raw_label) is None {
            prefix.push(dets.last().raw_label)
        } else {
            prefix
        }
    }
}

/// How many detections classify.
pub open spec fn matched_count(dets: Seq<DetectionView>, groups: Seq<GroupView>) -> nat
    decreases dets.len(),
{
    if dets.len() == 0 {
        0
    } else {
        matched_count(dets.drop_last(), groups) + if classify_spec(
            groups,
            dets.last().raw_label,
        ) is Some {
            1nat
        } else {
            0nat
        }
    }
}

/// The rendered manifest and the exporter's report to its caller.
pub struct ExportOutput {
    /// The CSV manifest bytes.
    pub csv: Vec<u8>,
    /// The distinct raw labels that were skipped as unconfigured, each at its
    /// first occurrence, in order.
    pub skipped: Vec<Vec<u8>>,
    /// How many data rows the manifest holds.
    pub rows: usize,
}

/// The header row as bytes.
fn write_header(out: &mut Vec<u8>)
    ensures
        final(out)@ == old(out)@ + csv_header(),
{
    let header: [u8; 48] = [
        102, 105, 108, 101, 110, 97, 109, 101, 44, 119, 105, 100, 116, 104, 44, 104, 101, 105,
        103, 104, 116, 44, 99, 108, 97, 115, 115, 44, 120, 109, 105, 110, 44, 121, 109, 105, 110,
        44, 120, 109, 97, 120, 44, 121, 109, 97, 120, 10,
    ];
    let mut i: usize = 0;
    while i < 48
        invariant
            i <= 48,
            header@ =~= csv_header(),
            out@ == old(out)@ + csv_header().take(i as int),
        decreases 48 - i,
    {
        out.push(header[i]);
        proof {
            assert(old(out)@ + csv_header().take(i + 1 as int) =~= (old(out)@
                + csv_header().take(i as int)).push(csv_header()[i as int]));
        }
        i = i + 1;
    }
    proof {
        assert(old(out)@ + csv_header().take(48int) =~= old(out)@ + csv_header());
    }
}

/// Whether the field must be quoted in the CSV output.
fn field_needs_quoting(f: &Vec<u8>) -> (r: bool)
    ensures
        r == needs_quoting(f@),
{
    let n = f.len();
    let mut i: usize = 0;
    while i < n
        invariant
            n == f@.len(),
            i <= n,
            forall|j: int|
                0 <= j < i ==> !(f@[j] == QUOTE || f@[j] == COMMA || f@[j] == LINE_FEED || f@[j]
                    == CARRIAGE_RETURN),
        decreases n - i,
    {
        let b = f[i];
        if b == QUOTE || b == COMMA || b == LINE_FEED || b == CARRIAGE_RETURN {
            return true;
        }
        i = i + 1;
    }
    false
}

/// Appends the CSV encoding of one field.
fn write_field(out: &mut Vec<u8>, f: &Vec<u8>)
    ensures
        final(out)@ == old(out)@ + encode_field(f@),
{
    if !field_needs_quoting(f) {
        push_bytes(out, f);
        return ;
    }
    out.push(QUOTE);
    let n = f.len();
    let mut i: usize = 0;
    proof {
        assert(escape_quotes(f@.take(0)) =~= Seq::<u8>::empty());
        assert(out@ =~= old(out)@ + seq![QUOTE] + escape_quotes(f@.take(0)));
    }
    while i < n
        invariant
            n == f@.len(),
            i <= n,
            out@ == old(out)@ + seq![QUOTE] + escape_quotes(f@.take(i as int)),
            needs_quoting(f@),
        decreases n - i,
    {
        let b = f[i];
        if b == QUOTE {
            out.push(QUOTE);
            out.push(QUOTE);
        } else {
            out.push(b);
        }
        proof {
            assert(f@.take(i + 1 as int).drop_last() =~= f@.take(i as int));
            assert(f@.take(i + 1 as int).last() == f@[i as int]);
            if f@[i as int] == QUOTE {
                assert(old(out)@ + seq![QUOTE] + escape_quotes(f@.take(i + 1 as int)) =~= ((old(
                    out,
                )@ + seq![QUOTE] + escape_quotes(f@.take(i as int))).push(QUOTE)).push(QUOTE));
            } else {
                assert(old(out)@ + seq![QUOTE] + escape_quotes(f@.take(i + 1 as int)) =~= (old(
                    out,
                )@ + seq![QUOTE] + escape_quotes(f@.take(i as int))).push(f@[i as int]));
            }
        }
        i = i + 1;
    }
    out.push(QUOTE);
    proof {
        assert(f@.take(n as int) =~= f@);
        assert(old(out)@ + encode_field(f@) =~= (old(out)@ + seq![QUOTE] + escape_quotes(f@)).push(
            QUOTE,
        ));
    }
}

/// Appends the decimal digits of `n`.
fn push_dec(out: &mut Vec<u8>, n: u32)
    ensures
        final(out)@ == old(out)@ + dec_str(n as nat),
    decreases n,
{
    if n < 10 {
        out.push(48 + (n as u8));
        proof {
            assert(old(out)@ + dec_str(n as nat) =~= old(out)@.push((48 + n) as u8));
        }
    } else {
        push_dec(out, n / 10);
        out.push(48 + ((n % 10) as u8));
        proof {
            assert(old(out)@ + dec_str(n as nat) =~= (old(out)@ + dec_str((n / 10) as nat)).push(
                (48 + n % 10) as u8,
            ));
        }
    }
}

/// Appends one comma.
fn push_comma(out: &mut Vec<u8>)
    ensures
        final(out)@ == old(out)@ + seq![COMMA],
{
    out.push(COMMA);
    proof {
        assert(old(out)@ + seq![COMMA] =~= old(out)@.push(COMMA));
    }
}

/// Appends one manifest row for a classified detection.
fn write_row(out: &mut Vec<u8>, d: &Detection, class: &Vec<u8>, coverage: u32)
    requires
        coverage <= 100,
    ensures
        final(out)@ == old(out)@ + row_bytes(d@, class@, coverage as int),
{
    let label_dir = get_base_dir(&d.path);
    let root_dir = get_base_dir(&label_dir);
    let filename = get_relative_filename(&d.path, &root_dir);
    let (xmin, ymin, xmax, ymax) = calculate_bounding_box(d.width, d.height, coverage);
    let mut row: Vec<u8> = Vec::new();
    write_field(&mut row, &filename);
    proof {
        assert(filename@ == label_relative_spec(d@.path));
        assert(Seq::<u8>::empty() + encode_field(filename@) =~= encode_field(filename@));
    }
    push_comma(&mut row);
    push_dec(&mut row, d.width);
    push_comma(&mut row);
    push_dec(&mut row, d.height);
    push_comma(&mut row);
    write_field(&mut row, class);
    push_comma(&mut row);
    push_dec(&mut row, xmin);
    push_comma(&mut row);
    push_dec(&mut row, ymin);
    push_comma(&mut row);
    push_dec(&mut row, xmax);
    push_comma(&mut row);
    push_dec(&mut row, ymax);
    push_line_feed(&mut row);
    proof {
        assert(row@ == row_bytes(d@, class@, coverage as int));
    }
    push_bytes(out, &row);
}

/// Appends the row terminator.
fn push_line_feed(out: &mut Vec<u8>)
    ensures
        final(out)@ == old(out)@ + seq![LINE_FEED],
{
    out.push(LINE_FEED);
    proof {
        assert(old(out)@ + seq![LINE_FEED] =~= old(out)@.push(LINE_FEED));
    }
}

/// Renders the CSV manifest for the detections: the header row, then one row
/// per detection whose raw label classifies, in detection order. Reports the
/// distinct skipped raw labels and the data-row count.
pub fn export(data: &Vec<Detection>, classifier: &LabelClassification, coverage_percent: u32) -> (out:
    ExportOutput)
    requires
        coverage_percent <= 100,
    ensures
        out.csv@ == manifest_csv(detection_views(data@), classifier@, coverage_percent as int),
        views_of(out.skipped@) == first_occurrences(
            skipped_of(detection_views(data@), classifier@),
        ),
        out.rows == matched_count(detection_views(data@), classifier@),
{
    let ghost dv: Seq<DetectionView> = detection_views(data@);
    let ghost groups: Seq<GroupView> = classifier@;
    let ghost cov: int = coverage_percent as int;
    let mut csv: Vec<u8> = Vec::new();
    write_header(&mut csv);
    let mut unmatched: Vec<Vec<u8>> = Vec::new();
    let mut rows: usize = 0;
    let n = data.len();
    let mut i: usize = 0;
    proof {
        assert(csv@ =~= csv_header() + manifest_rows(dv.take(0), groups, cov));
        assert(views_of(unmatched@) =~= skipped_of(dv.take(0), groups));
    }
    while i < n
        invariant
            n == data@.len(),
            i <= n,
            rows <= i,
            coverage_percent <= 100,
            dv == detection_views(data@),
            groups == classifier@,
            cov == coverage_percent as int,
            csv@ == csv_header() + manifest_rows(dv.take(i as int), groups, cov),
            views_of(unmatched@) == skipped_of(dv.take(i as int), groups),
            rows == matched_count(dv.take(i as int), groups),
        decreases n - i,
    {
        let d = &data[i];
        proof {
            assert(dv.take(i + 1).drop_last() =~= dv.take(i as int));
            assert(dv.take(i + 1).last() == d@);
        }
        match classifier.get_class(&d.raw_label) {
            Some(class) => {
                write_row(&mut csv, d, &class, coverage_percent);
                rows = rows + 1;
                proof {
                    assert(csv_header() + manifest_rows(dv.take(i + 1), groups, cov)
                        =~= (csv_header() + manifest_rows(dv.take(i as int), groups, cov))
                        + row_bytes(d@, class@, cov));
                }
            },
            None => {
                let l = copy_bytes(&d.raw_label);
                unmatched.push(l);
                proof {
                    assert(views_of(unmatched@) =~= skipped_of(dv.take(i as int), groups).push(
                        d@.raw_label,
                    ));
                }
            },
        }
        i = i + 1;
    }
    proof {
        assert(dv.take(n as int) =~= dv);
    }
    let skipped = unique_byte_strings(&unmatched);
    ExportOutput { csv, skipped, rows }
}

/// Exporting an identical detection sequence against the same classifier and
/// coverage twice yields byte-identical CSV output: the manifest is a function
/// of those inputs alone.
pub proof fn lemma_export_deterministic(
    csv1: Seq<u8>,
    csv2: Seq<u8>,
    dets: Seq<DetectionView>,
    groups: Seq<GroupView>,
    coverage: int,
)
    requires
        csv1 == manifest_csv(dets, groups, coverage),
        csv2 == manifest_csv(dets, groups, coverage),
    ensures
        csv1 == csv2,
{
}

} // verus!
