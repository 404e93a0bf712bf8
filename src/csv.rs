use vstd::prelude::*;
use vstd::utf8::encode_utf8;
use crate::frame::{Frame, Record};

verus! {

/// The comma that separates fields.
pub const COMMA: u8 = 44;

/// The double quote that encloses a field.
pub const QUOTE: u8 = 34;

/// The line feed that ends every line.
pub const NEWLINE: u8 = 10;

/// The carriage return, which also forces quoting.
pub const RETURN: u8 = 13;

/// A byte that cannot stand bare inside a field.
pub open spec fn is_special(b: u8) -> bool {
    b == COMMA || b == QUOTE || b == NEWLINE || b == RETURN
}

/// A field is written bare when it holds no special byte.
pub open spec fn is_plain(b: Seq<u8>) -> bool {
    forall|i: int| 0 <= i < b.len() ==> !is_special(#[trigger] b[i])
}

/// The field's bytes with every double quote doubled.
pub open spec fn escaped(b: Seq<u8>) -> Seq<u8>
    decreases b.len(),
{
    if b.len() == 0 {
        Seq::empty()
    } else if b.last() == QUOTE {
        escaped(b.drop_last()) + seq![QUOTE, QUOTE]
    } else {
        escaped(b.drop_last()).push(b.last())
    }
}

/// A field as it appears in a line: bare, or quoted with its quotes doubled.
pub open spec fn field(b: Seq<u8>) -> Seq<u8> {
    if is_plain(b) {
        b
    } else {
        seq![QUOTE] + escaped(b) + seq![QUOTE]
    }
}

/// Four fields separated by commas and ended by a line feed.
pub open spec fn line(a: Seq<u8>, b: Seq<u8>, c: Seq<u8>, d: Seq<u8>) -> Seq<u8> {
    field(a) + seq![COMMA] + field(b) + seq![COMMA] + field(c) + seq![COMMA] + field(d).push(NEWLINE)
}

/// The decimal digits of `n`, most significant first, in ASCII.
pub open spec fn decimal(n: nat) -> Seq<u8>
    decreases n,
{
    if n < 10 {
        seq![(48 + n) as u8]
    } else {
        decimal(n / 10).push((48 + n % 10) as u8)
    }
}

/// The UTF-8 bytes of a text cell; a null cell is empty.
pub open spec fn text_cell(c: Option<String>) -> Seq<u8> {
    match c {
        Some(s) => encode_utf8(s@),
        None => Seq::empty(),
    }
}

/// The decimal bytes of a number cell; a null cell is empty.
pub open spec fn number_cell(c: Option<u64>) -> Seq<u8> {
    match c {
        Some(n) => decimal(n as nat),
        None => Seq::empty(),
    }
}

/// `FattyAcid` in ASCII: the name of the third column.
pub open spec fn fatty_acid_label() -> Seq<u8> {
    seq![70u8, 97, 116, 116, 121, 65, 99, 105, 100]
}

/// The header line: the two field names of `Mode`, `FattyAcid`, and the
/// field name of `ChainLength`.
pub open spec fn header_line(f: Frame) -> Seq<u8> {
    line(
        encode_utf8(f.mode_first_name@),
        encode_utf8(f.mode_second_name@),
        fatty_acid_label(),
        encode_utf8(f.chain_length_name@),
    )
}

/// The data line of one row.
pub open spec fn record_line(r: Record) -> Seq<u8> {
    line(
        text_cell(r.mode_first),
        text_cell(r.mode_second),
        text_cell(r.fatty_acid),
        number_cell(r.chain_length),
    )
}

/// The lines of the CSV output: the header, then one line per row in order.
pub open spec fn csv_lines(f: Frame) -> Seq<Seq<u8>> {
    seq![header_line(f)] + f.records@.map_values(|r: Record| record_line(r))
}

/// Lines laid end to end.
pub open spec fn joined(ls: Seq<Seq<u8>>) -> Seq<u8>
    decreases ls.len(),
{
    if ls.len() == 0 {
        Seq::empty()
    } else {
        joined(ls.drop_last()) + ls.last()
    }
}

/// The whole CSV output of a frame.
pub open spec fn csv_text(f: Frame) -> Seq<u8> {
    joined(csv_lines(f))
}

/// The number of times `x` occurs in `b`.
pub open spec fn count(b: Seq<u8>, x: u8) -> nat
    decreases b.len(),
{
    if b.len() == 0 {
        0
    } else {
        count(b.drop_last(), x) + if b.last() == x { 1nat } else { 0nat }
    }
}

fn is_plain_bytes(b: &[u8]) -> (r: bool)
    ensures
        r == is_plain(b@),
{
    let mut i: usize = 0;
    while i < b.len()
        invariant
            i <= b@.len(),
            forall|j: int| 0 <= j < i ==> !is_special(#[trigger] b@[j]),
        decreases b@.len() - i,
    {
        let c = b[i];
        if c == COMMA || c == QUOTE || c == NEWLINE || c == RETURN {
            assert(is_special(b@[i as int]));
            return false;
        }
        i = i + 1;
    }
    true
}

/// Appends `b` written as one field.
fn push_field(out: &mut Vec<u8>, b: &[u8])
    ensures
        final(out)@ == old(out)@ + field(b@),
{
    if is_plain_bytes(b) {
        let mut i: usize = 0;
        while i < b.len()
            invariant
                i <= b@.len(),
                out@ == old(out)@ + b@.subrange(0, i as int),
            decreases b@.len() - i,
        {
            out.push(b[i]);
            assert(b@.subrange(0, i + 1) =~= b@.subrange(0, i as int).push(b@[i as int]));
            i = i + 1;
        }
        assert(b@.subrange(0, b@.len() as int) =~= b@);
    } else {
        out.push(QUOTE);
        let ghost start = out@;
        let mut i: usize = 0;
        while i < b.len()
            invariant
                i <= b@.len(),
                out@ == start + escaped(b@.subrange(0, i as int)),
            decreases b@.len() - i,
        {
            assert(b@.subrange(0, i + 1).drop_last() =~= b@.subrange(0, i as int));
            let c = b[i];
            out.push(c);
            if c == QUOTE {
                out.push(QUOTE);
            }
            i = i + 1;
            assert(out@ =~= start + escaped(b@.subrange(0, i as int)));
        }
        assert(b@.subrange(0, b@.len() as int) =~= b@);
        out.push(QUOTE);
        assert(out@ =~= old(out)@ + field(b@));
    }
}

/// Appends the decimal digits of `n`.
fn push_decimal(out: &mut Vec<u8>, n: u64)
    ensures
        final(out)@ == old(out)@ + decimal(n as nat),
    decreases n,
{
    if n >= 10 {
        push_decimal(out, n / 10);
    }
    out.push((48 + n % 10) as u8);
    assert(out@ =~= old(out)@ + decimal(n as nat));
}

fn text_bytes(c: &Option<String>) -> (r: Vec<u8>)
    ensures
        r@ == text_cell(*c),
{
    let mut v: Vec<u8> = Vec::new();
    match c {
        Some(s) => {
            let b = s.as_str().as_bytes();
            let mut i: usize = 0;
            while i < b.len()
                invariant
                    i <= b@.len(),
                    v@ == b@.subrange(0, i as int),
                decreases b@.len() - i,
            {
                v.push(b[i]);
                assert(b@.subrange(0, i + 1) =~= b@.subrange(0, i as int).push(b@[i as int]));
                i = i + 1;
            }
            assert(b@.subrange(0, b@.len() as int) =~= b@);
        },
        None => {},
    }
    v
}

fn number_bytes(c: Option<u64>) -> (r: Vec<u8>)
    ensures
        r@ == number_cell(c),
{
    let mut v: Vec<u8> = Vec::new();
    match c {
        Some(n) => push_decimal(&mut v, n),
        None => {},
    }
    assert(v@ =~= number_cell(c));
    v
}

fn push_line(out: &mut Vec<u8>, a: &[u8], b: &[u8], c: &[u8], d: &[u8])
    ensures
        final(out)@ == old(out)@ + line(a@, b@, c@, d@),
{
    push_field(out, a);
    out.push(COMMA);
    push_field(out, b);
    out.push(COMMA);
    push_field(out, c);
    out.push(COMMA);
    push_field(out, d);
    out.push(NEWLINE);
    assert(out@ =~= old(out)@ + line(a@, b@, c@, d@));
}

/// Encodes the projection of `frame` as CSV: the header, then one line per
/// row with field 0 and field 1 of `Mode`, `FattyAcid` and field 0 of
/// `ChainLength`, in that order. A field that holds a comma, a quote or a
/// line break is quoted; a null cell is an empty field.
pub fn csv_bytes(frame: &Frame) -> (r: Vec<u8>)
    ensures
        r@ == csv_text(*frame),
{
    let mut out: Vec<u8> = Vec::new();
    let label: Vec<u8> = vec![70u8, 97, 116, 116, 121, 65, 99, 105, 100];
    assert(label@ =~= fatty_acid_label());
    push_line(
        &mut out,
        frame.mode_first_name.as_str().as_bytes(),
        frame.mode_second_name.as_str().as_bytes(),
        label.as_slice(),
        frame.chain_length_name.as_str().as_bytes(),
    );
    let ghost lines = csv_lines(*frame);
    assert(lines.subrange(0, 1).drop_last() =~= Seq::<Seq<u8>>::empty());
    assert(lines[0] == header_line(*frame));
    assert(lines.subrange(0, 1).last() == header_line(*frame));
    assert(joined(Seq::<Seq<u8>>::empty()) =~= Seq::<u8>::empty());
    assert(out@ =~= joined(lines.subrange(0, 1)));
    let mut i: usize = 0;
    while i < frame.records.len()
        invariant
            i <= frame.records@.len(),
            lines == csv_lines(*frame),
            lines.len() == frame.records@.len() + 1,
            out@ == joined(lines.subrange(0, i + 1)),
        decreases frame.records@.len() - i,
    {
        let r = &frame.records[i];
        let m0 = text_bytes(&r.mode_first);
        let m1 = text_bytes(&r.mode_second);
        let fa = text_bytes(&r.fatty_acid);
        let cl = number_bytes(r.chain_length);
        push_line(&mut out, m0.as_slice(), m1.as_slice(), fa.as_slice(), cl.as_slice());
        assert(lines[i + 1] == record_line(frame.records@[i as int]));
        assert(lines.subrange(0, i + 2).drop_last() =~= lines.subrange(0, i + 1));
        i = i + 1;
    }
    assert(lines.subrange(0, lines.len() as int) =~= lines);
    out
}

/// A count over two parts adds up.
proof fn lemma_count_concat(a: Seq<u8>, b: Seq<u8>, x: u8)
    ensures
        count(a + b, x) == count(a, x) + count(b, x),
    decreases b.len(),
{
    if b.len() > 0 {
        assert((a + b).drop_last() =~= a + b.drop_last());
        lemma_count_concat(a, b.drop_last(), x);
    } else {
        assert(a + b =~= a);
    }
}

/// A plain field holds no special byte.
proof fn lemma_plain_count(b: Seq<u8>, x: u8)
    requires
        is_plain(b),
        is_special(x),
    ensures
        count(b, x) == 0,
    decreases b.len(),
{
    if b.len() > 0 {
        assert(!is_special(b[b.len() - 1]));
        lemma_plain_count(b.drop_last(), x);
    }
}

/// Decimal digits are never special.
proof fn lemma_decimal_plain(n: nat)
    ensures
        is_plain(decimal(n)),
    decreases n,
{
    if n >= 10 {
        lemma_decimal_plain(n / 10);
        let d = decimal(n / 10);
        assert forall|i: int| 0 <= i < decimal(n).len() implies !is_special(#[trigger] decimal(n)[i]) by {
            if i < d.len() {
                assert(decimal(n)[i] == d[i]);
            }
        }
    }
}

/// A line of four plain fields has three commas, no quote, and one line feed,
/// at its end.
proof fn lemma_line_shape(a: Seq<u8>, b: Seq<u8>, c: Seq<u8>, d: Seq<u8>, x: u8)
    requires
        is_plain(a),
        is_plain(b),
        is_plain(c),
        is_plain(d),
        is_special(x),
    ensures
        count(line(a, b, c, d), x) == if x == COMMA { 3nat } else if x == NEWLINE { 1nat } else { 0nat },
        line(a, b, c, d).last() == NEWLINE,
{
    lemma_plain_count(a, x);
    lemma_plain_count(b, x);
    lemma_plain_count(c, x);
    lemma_plain_count(d, x);
    let sep = seq![COMMA];
    let end = seq![NEWLINE];
    assert(count(sep, x) == if x == COMMA { 1nat } else { 0nat }) by {
        assert(sep.drop_last() =~= Seq::<u8>::empty());
        assert(sep.last() == COMMA);
        assert(count(sep.drop_last(), x) == 0);
    }
    assert(count(end, x) == if x == NEWLINE { 1nat } else { 0nat }) by {
        assert(end.drop_last() =~= Seq::<u8>::empty());
        assert(end.last() == NEWLINE);
        assert(count(end.drop_last(), x) == 0);
    }
    lemma_count_concat(a, sep, x);
    lemma_count_concat(a + sep, b, x);
    lemma_count_concat(a + sep + b, sep, x);
    lemma_count_concat(a + sep + b + sep, c, x);
    lemma_count_concat(a + sep + b + sep + c, sep, x);
    lemma_count_concat(a + sep + b + sep + c + sep, d, x);
    lemma_count_concat(a + sep + b + sep + c + sep + d, end, x);
    assert(line(a, b, c, d) =~= a + sep + b + sep + c + sep + d + end);
}

/// Lines that each hold `k` copies of `x` hold `k` times their number together.
proof fn lemma_joined_count(ls: Seq<Seq<u8>>, x: u8, k: nat)
    requires
        forall|i: int| 0 <= i < ls.len() ==> count(#[trigger] ls[i], x) == k,
    ensures
        count(joined(ls), x) == k * ls.len(),
    decreases ls.len(),
{
    if ls.len() > 0 {
        let rest = ls.drop_last();
        assert forall|i: int| 0 <= i < rest.len() implies count(#[trigger] rest[i], x) == k by {
            assert(rest[i] == ls[i]);
        }
        lemma_joined_count(rest, x, k);
        lemma_count_concat(joined(rest), ls.last(), x);
        let n = rest.len();
        assert(k * n + k == k * (n + 1)) by (nonlinear_arith);
    }
}

/// The cells of a row that are written as text hold no special byte.
pub open spec fn plain_record(r: Record) -> bool {
    &&& is_plain(text_cell(r.mode_first))
    &&& is_plain(text_cell(r.mode_second))
    &&& is_plain(text_cell(r.fatty_acid))
}

/// The field names and text cells of a frame hold no comma, quote or line break.
pub open spec fn plain_frame(f: Frame) -> bool {
    &&& is_plain(encode_utf8(f.mode_first_name@))
    &&& is_plain(encode_utf8(f.mode_second_name@))
    &&& is_plain(encode_utf8(f.chain_length_name@))
    &&& forall|i: int| 0 <= i < f.records@.len() ==> plain_record(#[trigger] f.records@[i])
}

/// When no field needs quoting, the CSV output of a frame is one line per
/// row plus the header, each line ending in its only line feed and holding
/// exactly four fields: three commas and no quote.
pub proof fn lemma_csv_shape(f: Frame)
    requires
        plain_frame(f),
    ensures
        csv_lines(f).len() == f.rows() + 1,
        csv_text(f) == joined(csv_lines(f)),
        count(csv_text(f), NEWLINE) == f.rows() + 1,
        forall|i: int|
            0 <= i < csv_lines(f).len() ==> {
                &&& count(#[trigger] csv_lines(f)[i], NEWLINE) == 1
                &&& count(csv_lines(f)[i], COMMA) == 3
                &&& count(csv_lines(f)[i], QUOTE) == 0
                &&& csv_lines(f)[i].last() == NEWLINE
            },
{
    let ls = csv_lines(f);
    assert(is_plain(fatty_acid_label())) by {
        let l = fatty_acid_label();
        assert forall|i: int| 0 <= i < l.len() implies !is_special(#[trigger] l[i]) by {
            assert(l[0] == 70 && l[1] == 97 && l[2] == 116 && l[3] == 116 && l[4] == 121);
            assert(l[5] == 65 && l[6] == 99 && l[7] == 105 && l[8] == 100);
        }
    }
    assert forall|i: int| 0 <= i < ls.len() implies {
        &&& count(#[trigger] ls[i], NEWLINE) == 1
        &&& count(ls[i], COMMA) == 3
        &&& count(ls[i], QUOTE) == 0
        &&& ls[i].last() == NEWLINE
    } by {
        if i == 0 {
            let (a, b, c, d) = (
                encode_utf8(f.mode_first_name@),
                encode_utf8(f.mode_second_name@),
                fatty_acid_label(),
                encode_utf8(f.chain_length_name@),
            );
            lemma_line_shape(a, b, c, d, NEWLINE);
            lemma_line_shape(a, b, c, d, COMMA);
            lemma_line_shape(a, b, c, d, QUOTE);
        } else {
            let r = f.records@[i - 1];
            assert(plain_record(r));
            assert(ls[i] == record_line(r));
            let n = number_cell(r.chain_length);
            match r.chain_length {
                Some(v) => lemma_decimal_plain(v as nat),
                None => {},
            }
            assert(is_plain(n));
            let (a, b, c) = (text_cell(r.mode_first), text_cell(r.mode_second), text_cell(r.fatty_acid));
            lemma_line_shape(a, b, c, n, NEWLINE);
            lemma_line_shape(a, b, c, n, COMMA);
            lemma_line_shape(a, b, c, n, QUOTE);
        }
    }
    lemma_joined_count(ls, NEWLINE, 1);
}

/// A frame without rows gives the header line and nothing else.
pub proof fn lemma_empty_frame(f: Frame)
    requires
        f.rows() == 0,
    ensures
        csv_lines(f) == seq![header_line(f)],
        csv_text(f) == header_line(f),
{
    let ls = csv_lines(f);
    assert(ls =~= seq![header_line(f)]);
    assert(ls.drop_last() =~= Seq::<Seq<u8>>::empty());
    assert(joined(Seq::<Seq<u8>>::empty()) =~= Seq::<u8>::empty());
    assert(csv_text(f) =~= header_line(f));
}

} // verus!
