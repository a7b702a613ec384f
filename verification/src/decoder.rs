//! The record decoder: turns a gzip-compressed, header-less, comma-separated
//! byte stream with four columns `(src, dest, weight, timestamp)` into edge
//! records.
//!
//! Rows are separated by line feeds (a trailing carriage return is
//! tolerated). A row that does not split into exactly four fields, or whose
//! weight or timestamp is not a numeric text, is dropped silently: no error
//! reaches the caller and no partial record is ever produced. Only an input
//! that is not valid gzip is a fatal decode failure.

use vstd::prelude::*;

use crate::record::{is_numeric_text, record_wf, EdgeRecord, RecordView};

verus! {

/// Splits a byte sequence on a separator. The result always has one part
/// more than there are separators; an empty input gives one empty part.
pub open spec fn split_on(s: Seq<u8>, sep: u8) -> Seq<Seq<u8>>
    decreases s.len(),
{
    if s.len() == 0 {
        seq![Seq::<u8>::empty()]
    } else if s.last() == sep {
        split_on(s.drop_last(), sep).push(Seq::<u8>::empty())
    } else {
        let sp = split_on(s.drop_last(), sep);
        sp.update(sp.len() - 1, sp.last().push(s.last()))
    }
}

pub proof fn lemma_split_on_nonempty(s: Seq<u8>, sep: u8)
    ensures
        split_on(s, sep).len() >= 1,
    decreases s.len(),
{
    if s.len() > 0 {
        lemma_split_on_nonempty(s.drop_last(), sep);
    }
}

/// A trailing carriage return is not part of the row.
pub open spec fn trim_cr(line: Seq<u8>) -> Seq<u8> {
    if line.len() > 0 && line.last() == 13 {
        line.drop_last()
    } else {
        line
    }
}

/// What one row decodes to: the four comma-separated fields as a record,
/// or nothing when the shape or the numeric fields are wrong.
pub open spec fn parse_row(line: Seq<u8>) -> Option<RecordView> {
    let fields = split_on(trim_cr(line), 44);
    if fields.len() == 4 && is_numeric_text(fields[2]) && is_numeric_text(fields[3]) {
        Some(
            RecordView {
                src: fields[0],
                dest: fields[1],
                weight: fields[2],
                timestamp: fields[3],
            },
        )
    } else {
        None
    }
}

/// The records of a sequence of rows, in row order, malformed rows dropped.
pub open spec fn decode_rows_spec(lines: Seq<Seq<u8>>) -> Seq<RecordView>
    decreases lines.len(),
{
    if lines.len() == 0 {
        Seq::<RecordView>::empty()
    } else {
        decode_rows_spec(lines.drop_last()) + (match parse_row(lines.last()) {
            Some(r) => seq![r],
            None => Seq::<RecordView>::empty(),
        })
    }
}

/// The records of a whole decompressed byte stream.
pub open spec fn decode_spec(data: Seq<u8>) -> Seq<RecordView> {
    decode_rows_spec(split_on(data, 10))
}

/// Splits a byte vector on a separator byte.
pub fn split_bytes(s: &Vec<u8>, sep: u8) -> (out: Vec<Vec<u8>>)
    ensures
        out@.map_values(|f: Vec<u8>| f@) == split_on(s@, sep),
{
    let mut out: Vec<Vec<u8>> = Vec::new();
    let mut cur: Vec<u8> = Vec::new();
    let mut i: usize = 0;
    while i < s.len()
        invariant
            i <= s@.len(),
            out@.map_values(|f: Vec<u8>| f@).push(cur@) =~= split_on(
                s@.subrange(0, i as int),
                sep,
            ),
        decreases s@.len() - i,
    {
        let ghost pre = s@.subrange(0, i as int);
        let ghost sp = split_on(pre, sep);
        let b = s[i];
        i = i + 1;
        proof {
            let now = s@.subrange(0, i as int);
            assert(now.drop_last() =~= pre);
            assert(now.last() == b);
            lemma_split_on_nonempty(pre, sep);
        }
        if b == sep {
            out.push(cur);
            cur = Vec::new();
            proof {
                assert(out@.map_values(|f: Vec<u8>| f@).push(cur@) =~= split_on(
                    s@.subrange(0, i as int),
                    sep,
                ));
            }
        } else {
            cur.push(b);
            proof {
                let now = s@.subrange(0, i as int);
                assert(split_on(now, sep) == sp.update(sp.len() - 1, sp.last().push(b)));
                assert(sp.last() == cur@.drop_last());
                assert(cur@ == sp.last().push(b));
                assert(out@.map_values(|f: Vec<u8>| f@).push(cur@) =~= split_on(now, sep));
            }
        }
    }
    proof {
        assert(s@.subrange(0, s@.len() as int) =~= s@);
    }
    out.push(cur);
    proof {
        assert(out@.map_values(|f: Vec<u8>| f@) =~= split_on(s@,
            sep,
        ));
    }
    out
}

/// Decodes one row; yields the record exactly when the row is well formed.
pub fn parse_row_bytes(line: Vec<u8>) -> (r: Option<EdgeRecord>)
    ensures
        match r {
            Some(rec) => parse_row(line@) == Some(rec@) && record_wf(rec@),
            None => parse_row(line@) is None,
        },
{
    let mut work = line;
    let ghost orig = work@;
    if work.len() > 0 && work[work.len() - 1] == 13 {
        work.pop();
    }
    proof {
        assert(work@ =~= trim_cr(orig));
    }
    let mut fields = split_bytes(&work, 44);
    let ghost sp = split_on(trim_cr(orig), 44);
    if fields.len() == 4 {
        proof {
            assert(sp[0] == fields@.map_values(|f: Vec<u8>| f@)[0]);
            assert(sp[1] == fields@.map_values(|f: Vec<u8>| f@)[1]);
            assert(sp[2] == fields@.map_values(|f: Vec<u8>| f@)[2]);
            assert(sp[3] == fields@.map_values(|f: Vec<u8>| f@)[3]);
        }
        let timestamp = fields.pop().unwrap();
        let weight = fields.pop().unwrap();
        let dest = fields.pop().unwrap();
        let src = fields.pop().unwrap();
        proof {
            assert(src@ == sp[0]);
            assert(dest@ == sp[1]);
            assert(weight@ == sp[2]);
            assert(timestamp@ == sp[3]);
        }
        if crate::record::check_numeric(&weight) && crate::record::check_numeric(&timestamp) {
            let rec = EdgeRecord { src, dest, weight, timestamp };
            Some(rec)
        } else {
            None
        }
    } else {
        None
    }
}

/// Decodes a whole decompressed byte stream into the records of its
/// well-formed rows, in row order; malformed rows contribute nothing.
pub fn decode_rows(data: &Vec<u8>) -> (out: Vec<EdgeRecord>)
    ensures
        out@.map_values(|r: EdgeRecord| r@) == decode_spec(data@),
        forall|k: int| 0 <= k < out@.len() ==> record_wf(#[trigger] out@[k]@),
{
    let mut out: Vec<EdgeRecord> = Vec::new();
    let mut cur: Vec<u8> = Vec::new();
    let mut i: usize = 0;
    while i < data.len()
        invariant
            i <= data@.len(),
            split_on(data@.subrange(0, i as int), 10).len() >= 1,
            out@.map_values(|r: EdgeRecord| r@) =~= decode_rows_spec(
                split_on(data@.subrange(0, i as int), 10).drop_last(),
            ),
            cur@ == split_on(data@.subrange(0, i as int), 10).last(),
            forall|k: int| 0 <= k < out@.len() ==> record_wf(#[trigger] out@[k]@),
        decreases data@.len() - i,
    {
        let ghost pre = data@.subrange(0, i as int);
        let ghost sp = split_on(pre, 10);
        let b = data[i];
        i = i + 1;
        let ghost now = data@.subrange(0, i as int);
        proof {
            assert(now.drop_last() =~= pre);
            assert(now.last() == b);
            lemma_split_on_nonempty(pre, 10);
        }
        if b == 10 {
            let line = cur;
            cur = Vec::new();
            proof {
                assert(split_on(now, 10) == sp.push(Seq::<u8>::empty()));
                assert(split_on(now, 10).drop_last() =~= sp);
            }
            match parse_row_bytes(line) {
                Some(rec) => {
                    out.push(rec);
                    proof {
                        assert(out@.map_values(|r: EdgeRecord| r@) =~= decode_rows_spec(
                            sp.drop_last(),
                        ).push(rec@));
                        assert(decode_rows_spec(sp) =~= decode_rows_spec(sp.drop_last()).push(
                            rec@,
                        ));
                    }
                },
                None => {
                    proof {
                        assert(decode_rows_spec(sp) =~= decode_rows_spec(sp.drop_last()));
                    }
                },
            }
        } else {
            cur.push(b);
            proof {
                let spn = split_on(now, 10);
                assert(spn == sp.update(sp.len() - 1, sp.last().push(b)));
                assert(spn.drop_last() =~= sp.drop_last());
                assert(spn.last() == sp.last().push(b));
            }
        }
    }
    proof {
        assert(data@.subrange(0, data@.len() as int) =~= data@);
    }
    let ghost sp = split_on(data@, 10);
    proof {
        lemma_split_on_nonempty(data@, 10);
    }
    let line = cur;
    match parse_row_bytes(line) {
        Some(rec) => {
            out.push(rec);
            proof {
                assert(out@.map_values(|r: EdgeRecord| r@) =~= decode_rows_spec(
                    sp.drop_last(),
                ).push(rec@));
                assert(decode_rows_spec(sp) =~= decode_rows_spec(sp.drop_last()).push(rec@));
            }
        },
        None => {
            proof {
                assert(decode_rows_spec(sp) =~= decode_rows_spec(sp.drop_last()));
            }
        },
    }
    out
}

/// Splitting a text without the separator gives the text back whole.
pub proof fn lemma_split_on_no_sep(s: Seq<u8>, sep: u8)
    requires
        forall|i: int| 0 <= i < s.len() ==> s[i] != sep,
    ensures
        split_on(s, sep) == seq![s],
    decreases s.len(),
{
    if s.len() == 0 {
        assert(s =~= Seq::<u8>::empty());
        assert(split_on(s, sep) =~= seq![s]);
    } else {
        lemma_split_on_no_sep(s.drop_last(), sep);
        assert(s.last() != sep);
        assert(split_on(s, sep) =~= seq![s.drop_last().push(s.last())]);
        assert(s.drop_last().push(s.last()) =~= s);
        assert(split_on(s, sep) =~= seq![s]);
    }
}

/// Splitting distributes over a separator: the parts of `a`, then the parts
/// of `b`.
pub proof fn lemma_split_on_append_sep(a: Seq<u8>, b: Seq<u8>, sep: u8)
    ensures
        split_on(a + seq![sep] + b, sep) == split_on(a, sep) + split_on(b, sep),
    decreases b.len(),
{
    let s = a + seq![sep] + b;
    lemma_split_on_nonempty(a, sep);
    if b.len() == 0 {
        assert(s.len() > 0);
        assert(s.drop_last() =~= a);
        assert(s.last() == sep);
        assert(split_on(s, sep) == split_on(a, sep).push(Seq::<u8>::empty()));
        assert(split_on(a, sep) + split_on(b, sep) =~= split_on(a, sep).push(
            Seq::<u8>::empty(),
        ));
    } else {
        lemma_split_on_append_sep(a, b.drop_last(), sep);
        lemma_split_on_nonempty(b.drop_last(), sep);
        let s0 = a + seq![sep] + b.drop_last();
        assert(s.len() > 0);
        assert(s.drop_last() =~= s0);
        assert(s.last() == b[b.len() - 1]);
        if b.last() == sep {
            assert(split_on(s, sep) == split_on(s0, sep).push(Seq::<u8>::empty()));
            assert(split_on(b, sep) == split_on(b.drop_last(), sep).push(Seq::<u8>::empty()));
            assert(split_on(s, sep) =~= split_on(a, sep) + split_on(b, sep));
        } else {
            let sp0 = split_on(s0, sep);
            let spb0 = split_on(b.drop_last(), sep);
            assert(split_on(s, sep) == sp0.update(sp0.len() - 1, sp0.last().push(b.last())));
            assert(split_on(b, sep) == spb0.update(spb0.len() - 1, spb0.last().push(b.last())));
            assert(sp0.last() == spb0.last());
            assert(split_on(s, sep) =~= split_on(a, sep) + split_on(b, sep));
        }
    }
}

/// Row decoding distributes over concatenation of row sequences.
pub proof fn lemma_decode_rows_concat(l1: Seq<Seq<u8>>, l2: Seq<Seq<u8>>)
    ensures
        decode_rows_spec(l1 + l2) == decode_rows_spec(l1) + decode_rows_spec(l2),
    decreases l2.len(),
{
    if l2.len() == 0 {
        assert(l1 + l2 =~= l1);
        assert(decode_rows_spec(l1) + decode_rows_spec(l2) =~= decode_rows_spec(l1));
    } else {
        lemma_decode_rows_concat(l1, l2.drop_last());
        let l = l1 + l2;
        assert(l.len() > 0);
        assert(l.drop_last() =~= l1 + l2.drop_last());
        assert(l.last() == l2[l2.len() - 1]);
        assert(decode_rows_spec(l) =~= decode_rows_spec(l1) + decode_rows_spec(l2));
    }
}

/// The decoder works row-locally: cutting the stream at any line break cuts
/// the record sequence, so damage in one row can never reach another.
pub proof fn lemma_decode_concat(data1: Seq<u8>, data2: Seq<u8>)
    ensures
        decode_spec(data1 + seq![10u8] + data2) == decode_spec(data1) + decode_spec(data2),
{
    lemma_split_on_append_sep(data1, data2, 10);
    lemma_decode_rows_concat(split_on(data1, 10), split_on(data2, 10));
}

/// One row alone decodes to its record when it is well formed, and to
/// nothing when it is malformed; either way the stream survives.
pub proof fn lemma_decode_single_row(line: Seq<u8>)
    requires
        forall|i: int| 0 <= i < line.len() ==> line[i] != 10,
    ensures
        decode_spec(line) == match parse_row(line) {
            Some(r) => seq![r],
            None => Seq::<RecordView>::empty(),
        },
{
    lemma_split_on_no_sep(line, 10);
    let ls = seq![line];
    assert(ls.len() == 1);
    assert(ls.drop_last() =~= Seq::<Seq<u8>>::empty());
    assert(ls.last() == line);
    assert(decode_rows_spec(Seq::<Seq<u8>>::empty()) == Seq::<RecordView>::empty());
    assert(decode_rows_spec(ls) == decode_rows_spec(ls.drop_last()) + (match parse_row(
        ls.last(),
    ) {
        Some(r) => seq![r],
        None => Seq::<RecordView>::empty(),
    }));
    match parse_row(line) {
        Some(r) => {
            assert(decode_rows_spec(ls) =~= seq![r]);
        },
        None => {
            assert(decode_rows_spec(ls) =~= Seq::<RecordView>::empty());
        },
    }
}

/// The unparsed form of a record: its four fields, comma-separated.
pub open spec fn render_row(r: RecordView) -> Seq<u8> {
    r.src + seq![44u8] + r.dest + seq![44u8] + r.weight + seq![44u8] + r.timestamp
}

/// Round trip: rendering a well-formed record as a row and parsing the row
/// gives the record back, field for field. The node identifiers must not
/// hold the field separator; the numeric fields cannot by their grammar.
pub proof fn lemma_row_round_trip(r: RecordView)
    requires
        record_wf(r),
        forall|i: int| 0 <= i < r.src.len() ==> r.src[i] != 44,
        forall|i: int| 0 <= i < r.dest.len() ==> r.dest[i] != 44,
    ensures
        parse_row(render_row(r)) == Some(r),
{
    let line = render_row(r);
    crate::record::lemma_numeric_chars(r.weight);
    crate::record::lemma_numeric_chars(r.timestamp);
    crate::record::lemma_numeric_nonempty(r.timestamp);
    let tail2 = r.weight + seq![44u8] + r.timestamp;
    let tail1 = r.dest + seq![44u8] + tail2;
    assert(line =~= r.src + seq![44u8] + tail1);
    assert(line.len() > 0);
    assert(line[line.len() - 1] == r.timestamp[r.timestamp.len() - 1]);
    assert(line.last() != 13);
    assert(trim_cr(line) == line);
    lemma_split_on_append_sep(r.src, tail1, 44);
    lemma_split_on_append_sep(r.dest, tail2, 44);
    lemma_split_on_append_sep(r.weight, r.timestamp, 44);
    lemma_split_on_no_sep(r.src, 44);
    lemma_split_on_no_sep(r.dest, 44);
    lemma_split_on_no_sep(r.weight, 44);
    lemma_split_on_no_sep(r.timestamp, 44);
    let fields = split_on(line, 44);
    assert(fields =~= seq![r.src, r.dest, r.weight, r.timestamp]);
    assert(fields[2] == r.weight);
    assert(fields[3] == r.timestamp);
    assert(parse_row(line) == Some(RecordView {
        src: fields[0],
        dest: fields[1],
        weight: fields[2],
        timestamp: fields[3],
    }));
    assert(RecordView {
        src: fields[0],
        dest: fields[1],
        weight: fields[2],
        timestamp: fields[3],
    } == r);
}

/// A whole well-formed row in the stream yields exactly one record with its
/// exact field values.
pub proof fn lemma_wellformed_row_decodes(r: RecordView)
    requires
        record_wf(r),
        forall|i: int| 0 <= i < r.src.len() ==> r.src[i] != 44 && r.src[i] != 10,
        forall|i: int| 0 <= i < r.dest.len() ==> r.dest[i] != 44 && r.dest[i] != 10,
    ensures
        decode_spec(render_row(r)) == seq![r],
{
    let line = render_row(r);
    crate::record::lemma_numeric_chars(r.weight);
    crate::record::lemma_numeric_chars(r.timestamp);
    let p1 = r.src.len() as int;
    let p2 = p1 + 1 + r.dest.len() as int;
    let p3 = p2 + 1 + r.weight.len() as int;
    assert forall|i: int| 0 <= i < line.len() implies line[i] != 10 by {
        if i < p1 {
            assert(line[i] == r.src[i]);
        } else if i == p1 {
            assert(line[i] == 44);
        } else if i < p2 {
            assert(line[i] == r.dest[i - p1 - 1]);
        } else if i == p2 {
            assert(line[i] == 44);
        } else if i < p3 {
            assert(line[i] == r.weight[i - p2 - 1]);
        } else if i == p3 {
            assert(line[i] == 44);
        } else {
            assert(line[i] == r.timestamp[i - p3 - 1]);
        }
    }
    lemma_row_round_trip(r);
    lemma_decode_single_row(line);
}

/// What the decompressed form of a gzip stream is, when there is one.
pub uninterp spec fn gunzip_of(data: Seq<u8>) -> Option<Seq<u8>>;

/// Relies on flate2's `bufread::GzDecoder` together with
/// `std::io::Read::read_to_end`: decompressing an in-memory gzip stream is a
/// function of the compressed bytes alone; a stream that is not valid gzip
/// fails instead of returning bytes.
#[verifier::external_body]
fn gunzip(data: &Vec<u8>) -> (r: Option<Vec<u8>>)
    ensures
        match r {
            Some(v) => gunzip_of(data@) == Some(v@),
            None => gunzip_of(data@) is None,
        },
{
    let mut decoder = flate2::bufread::GzDecoder::new(data.as_slice());
    let mut out: Vec<u8> = Vec::new();
    match std::io::Read::read_to_end(&mut decoder, &mut out) {
        Ok(_) => Some(out),
        Err(_) => None,
    }
}

/// Decompresses a gzip stream and decodes its rows. `None` is the fatal
/// startup case: the source is not valid gzip. Row-level damage never
/// surfaces here; it only shrinks the record sequence.
pub fn decode_gzip_csv(data: &Vec<u8>) -> (r: Option<Vec<EdgeRecord>>)
    ensures
        match r {
            Some(recs) => gunzip_of(data@) is Some && recs@.map_values(|rec: EdgeRecord| rec@)
                == decode_spec(gunzip_of(data@)->Some_0) && (forall|k: int|
                0 <= k < recs@.len() ==> record_wf(#[trigger] recs@[k]@)),
            None => gunzip_of(data@) is None,
        },
{
    match gunzip(data) {
        Some(plain) => Some(decode_rows(&plain)),
        None => None,
    }
}

} // verus!
