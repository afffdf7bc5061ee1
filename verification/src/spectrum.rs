//! One parsed spectrum, and the spectra of a run.

use crate::export::{has_table, table_name, table_path, table_path_of};
use crate::path::{named_pieces, segments};
use crate::number::Real;
use vstd::prelude::*;

verus! {

/// One spectrum: the name of the file it was read from, the wavenumber
/// axis that its header gives, and the transmittance values of its data
/// block. The two sequences go index by index; nothing holds them to one
/// length.
#[derive(Debug)]
pub struct Spectrum {
    pub source_name: String,
    pub wavenumber_axis: Vec<Real>,
    pub transmittance_values: Vec<Real>,
}

/// The spectra of a run, in the order in which their files were walked.
#[derive(Debug)]
pub struct Spectra {
    pub data: Vec<Spectrum>,
}

/// The rows of a table: wavenumber and transmittance index by index, for
/// as many indices as both sequences have.
pub open spec fn paired(axis: Seq<Real>, values: Seq<Real>) -> Seq<(Real, Real)> {
    Seq::new(
        if axis.len() <= values.len() {
            axis.len()
        } else {
            values.len()
        },
        |i: int| (axis[i], values[i]),
    )
}

impl Spectrum {
    /// A spectrum of the given parts.
    pub fn new(filename: String, wng: Vec<Real>, tng: Vec<Real>) -> (spectrum: Spectrum)
        ensures
            spectrum.source_name == filename,
            spectrum.wavenumber_axis == wng,
            spectrum.transmittance_values == tng,
    {
        Spectrum { source_name: filename, wavenumber_axis: wng, transmittance_values: tng }
    }

    /// The rows of the table of this spectrum.
    pub open spec fn table(&self) -> Seq<(Real, Real)> {
        paired(self.wavenumber_axis@, self.transmittance_values@)
    }

    /// The number of rows of the table: the length of the shorter of the
    /// two sequences.
    pub fn row_count(&self) -> (n: usize)
        ensures
            n == self.table().len(),
    {
        if self.wavenumber_axis.len() <= self.transmittance_values.len() {
            self.wavenumber_axis.len()
        } else {
            self.transmittance_values.len()
        }
    }

    /// The rows of the table, in order.
    pub fn rows(&self) -> (rows: Vec<(Real, Real)>)
        ensures
            rows@ == self.table(),
    {
        let n: usize = self.row_count();
        let mut rows: Vec<(Real, Real)> = Vec::new();
        let mut i: usize = 0;
        while i < n
            invariant
                i <= n,
                n == self.table().len(),
                rows@ == self.table().take(i as int),
            decreases n - i,
        {
            rows.push((self.wavenumber_axis[i], self.transmittance_values[i]));
            assert(rows@ =~= self.table().take(i + 1));
            i += 1;
        }
        assert(self.table().take(n as int) =~= self.table());
        rows
    }

    /// The path of the table under the output root, if the name of the
    /// spectrum is a relative name of a source file.
    pub fn csv_path(&self, output_root: &str) -> (r: Option<String>)
        ensures
            has_table(self.source_name@) ==> r is Some && r->0@ == table_path(
                self.source_name@,
                output_root@,
            ),
            !has_table(self.source_name@) ==> r is None,
            r is Some && output_root@.len() > 0 ==> segments(r->0@) == segments(output_root@)
                + named_pieces(table_name(self.source_name@)),
    {
        table_path_of(self.source_name.as_str(), output_root)
    }
}

impl Spectra {
    /// No spectra yet.
    pub fn new() -> (spectra: Spectra)
        ensures
            spectra.data@.len() == 0,
    {
        Spectra { data: Vec::new() }
    }

    /// Adds a spectrum behind those that are there.
    pub fn push(&mut self, spectrum: Spectrum)
        ensures
            final(self).data@ == old(self).data@.push(spectrum),
    {
        self.data.push(spectrum);
    }

    /// The number of spectra.
    pub fn len(&self) -> (n: usize)
        ensures
            n == self.data@.len(),
    {
        self.data.len()
    }
}

} // verus!
