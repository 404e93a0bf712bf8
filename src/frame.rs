use vstd::prelude::*;

verus! {

/// One row of the frame, restricted to the columns that the export reads.
/// A `None` cell is a null value.
#[derive(Debug)]
pub struct Record {
    /// Field 0 of the composite `Mode` value.
    pub mode_first: Option<String>,
    /// Field 1 of the composite `Mode` value.
    pub mode_second: Option<String>,
    /// The `FattyAcid` value in its canonical text form.
    pub fatty_acid: Option<String>,
    /// Field 0 of the composite `ChainLength` value: the chain length.
    pub chain_length: Option<u64>,
}

/// A frame as the export sees it: the names of the struct fields that are
/// unpacked into columns, and the rows in their original order.
#[derive(Debug)]
pub struct Frame {
    /// Name of field 0 of `Mode`.
    pub mode_first_name: String,
    /// Name of field 1 of `Mode`.
    pub mode_second_name: String,
    /// Name of field 0 of `ChainLength`.
    pub chain_length_name: String,
    pub records: Vec<Record>,
}

impl Frame {
    /// The number of rows.
    pub open spec fn rows(&self) -> nat {
        self.records@.len()
    }

    pub fn new(
        mode_first_name: String,
        mode_second_name: String,
        chain_length_name: String,
        records: Vec<Record>,
    ) -> (r: Frame)
        ensures
            r.mode_first_name@ == mode_first_name@,
            r.mode_second_name@ == mode_second_name@,
            r.chain_length_name@ == chain_length_name@,
            r.records@ == records@,
    {
        Frame { mode_first_name, mode_second_name, chain_length_name, records }
    }
}

} // verus!
