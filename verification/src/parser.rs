//! The reading of a source file, once its lines have been taken for
//! numbers: three header fields, then the transmittance values.

use crate::error::ConversionError;
use crate::number::Real;
use itertools::Itertools;
use vstd::prelude::*;

verus! {

/// The header of a source file: how many points the wavenumber axis has,
/// and the wavenumbers at which it starts and ends.
#[derive(Clone, Copy, Debug)]
pub struct Header {
    pub point_count: usize,
    pub w_high: Real,
    pub w_low: Real,
}

/// What a source file holds: its header, and its transmittance values in
/// the order of the file.
#[derive(Debug)]
pub struct Reading {
    pub header: Header,
    pub values: Vec<Real>,
}

/// The number of lines that make up the header.
pub open spec fn header_lines() -> nat {
    3
}

/// Whether the header can be read: the first three lines are there, and
/// each of them is a number.
pub open spec fn header_is_readable(fields: Seq<Option<Real>>) -> bool {
    &&& fields.len() >= header_lines()
    &&& fields[0] is Some
    &&& fields[1] is Some
    &&& fields[2] is Some
}

/// The header that the first three lines give: the first as a count, the
/// second and third as they are.
pub open spec fn header_of(fields: Seq<Option<Real>>) -> Header {
    Header {
        point_count: fields[0]->0.count() as usize,
        w_high: fields[1]->0,
        w_low: fields[2]->0,
    }
}

/// A field as it is, for picking the numbers out of a sequence of fields.
pub open spec fn number_in() -> spec_fn(Option<Real>) -> Option<Real> {
    |field: Option<Real>| field
}

/// The numbers among the fields, in order; what is not a number is left
/// out.
pub open spec fn numbers_in(fields: Seq<Option<Real>>) -> Seq<Real> {
    fields.filter_map(number_in())
}

/// The fields of the lines that follow the header.
pub open spec fn data_fields(fields: Seq<Option<Real>>) -> Seq<Option<Real>> {
    if fields.len() <= header_lines() {
        Seq::empty()
    } else {
        fields.skip(header_lines() as int)
    }
}

/// The transmittance values of a file: the numbers among the lines that
/// follow the header.
pub open spec fn values_of(fields: Seq<Option<Real>>) -> Seq<Real> {
    numbers_in(data_fields(fields))
}

/// The numbers among two runs of fields are those of the first run, then
/// those of the second.
pub proof fn lemma_numbers_in_two(first: Seq<Option<Real>>, second: Seq<Option<Real>>)
    ensures
        numbers_in(first + second) == numbers_in(first) + numbers_in(second),
    decreases second.len(),
{
    if second.len() == 0 {
        assert(first + second =~= first);
        assert(numbers_in(first) + numbers_in(second) =~= numbers_in(first));
    } else {
        lemma_numbers_in_two(first, second.drop_last());
        assert((first + second).drop_last() =~= first + second.drop_last());
        assert((first + second).last() == second.last());
        assert(numbers_in(first + second) =~= numbers_in(first) + numbers_in(second));
    }
}

/// A data line that is not a number is passed over and nothing else: the
/// values of the file are those of the file without that line.
pub proof fn lemma_unreadable_line_is_skipped(
    before: Seq<Option<Real>>,
    after: Seq<Option<Real>>,
)
    requires
        before.len() >= header_lines(),
    ensures
        values_of(before + seq![None::<Real>] + after) == values_of(before + after),
{
    let gap = seq![None::<Real>];
    let data = before.skip(header_lines() as int);
    assert(data_fields(before + gap + after) =~= data + gap + after);
    assert(data_fields(before + after) =~= data + after);
    lemma_numbers_in_two(data + gap, after);
    lemma_numbers_in_two(data, gap);
    lemma_numbers_in_two(data, after);
    Seq::lemma_filter_map_singleton(None::<Real>, number_in());
    assert(numbers_in(gap) =~= Seq::<Real>::empty());
    assert(numbers_in(data) + numbers_in(gap) =~= numbers_in(data));
}

/// A data line that is a number gives one value, in its place among the
/// values of the lines before and after it.
pub proof fn lemma_readable_line_is_kept(
    before: Seq<Option<Real>>,
    number: Real,
    after: Seq<Option<Real>>,
)
    requires
        before.len() >= header_lines(),
    ensures
        values_of(before + seq![Some(number)] + after) == values_of(before) + seq![number]
            + numbers_in(after),
{
    let line = seq![Some(number)];
    let data = before.skip(header_lines() as int);
    assert(data_fields(before + line + after) =~= data + line + after);
    assert(data_fields(before) =~= data);
    lemma_numbers_in_two(data + line, after);
    lemma_numbers_in_two(data, line);
    Seq::lemma_filter_map_singleton(Some(number), number_in());
    assert(numbers_in(line) =~= seq![number]);
}

/// Calls `collect_tuple` of itertools for a tuple of three. By the crate's
/// documentation and source the result is the three items, in order, if
/// the iterator yields exactly three, and nothing otherwise.
#[verifier::external_body]
fn collect_triple(numbers: Vec<Real>) -> (triple: Option<(Real, Real, Real)>)
    ensures
        numbers@.len() == 3 ==> triple == Some((numbers@[0], numbers@[1], numbers@[2])),
        numbers@.len() != 3 ==> triple is None,
{
    numbers.into_iter().collect_tuple()
}

/// Reads the header from the fields of a file.
pub fn read_header(fields: &[Option<Real>]) -> (r: Result<Header, ConversionError>)
    ensures
        header_is_readable(fields@) ==> r == Ok::<Header, ConversionError>(header_of(fields@)),
        !header_is_readable(fields@) ==> r == Err::<Header, ConversionError>(
            ConversionError::MalformedHeader,
        ),
{
    if fields.len() < 3 {
        return Err(ConversionError::MalformedHeader);
    }
    let mut numbers: Vec<Real> = Vec::new();
    if let Some(number) = fields[0] {
        numbers.push(number);
    }
    if let Some(number) = fields[1] {
        numbers.push(number);
    }
    if let Some(number) = fields[2] {
        numbers.push(number);
    }
    match collect_triple(numbers) {
        Some((count, w_high, w_low)) => Ok(
            Header { point_count: count.to_count(), w_high, w_low },
        ),
        None => Err(ConversionError::MalformedHeader),
    }
}

/// Reads the transmittance values from the fields of a file. A line that
/// is not a number is passed over, and reading goes on behind it.
pub fn read_values(fields: &[Option<Real>]) -> (values: Vec<Real>)
    ensures
        values@ == values_of(fields@),
{
    let mut values: Vec<Real> = Vec::new();
    if fields.len() <= 3 {
        return values;
    }
    let ghost data = fields@.skip(3);
    let mut i: usize = 3;
    assert(data.take(0) =~= Seq::<Option<Real>>::empty());
    while i < fields.len()
        invariant
            3 <= i <= fields.len(),
            data == fields@.skip(3),
            values@ == numbers_in(data.take(i - 3)),
        decreases fields.len() - i,
    {
        proof {
            data.lemma_filter_map_take_succ(number_in(), i - 3);
        }
        if let Some(number) = fields[i] {
            values.push(number);
        }
        i += 1;
    }
    assert(data.take(fields.len() - 3) =~= data);
    values
}

/// Reads a source file from its fields: the header, or the failure to read
/// it, and with the header the transmittance values.
pub fn read_fields(fields: &[Option<Real>]) -> (r: Result<Reading, ConversionError>)
    ensures
        header_is_readable(fields@) ==> r is Ok && r->Ok_0.header == header_of(fields@)
            && r->Ok_0.values@ == values_of(fields@),
        !header_is_readable(fields@) ==> r is Err && r->Err_0 == ConversionError::MalformedHeader,
{
    match read_header(fields) {
        Ok(header) => Ok(Reading { header, values: read_values(fields) }),
        Err(error) => Err(error),
    }
}

} // verus!
