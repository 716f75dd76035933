//! The measurement-report model: one record per named benchmark run,
//! with the fixed abbreviation table for the known run names and the
//! exact semicolon-delimited CSV shape.
//!
//! Extracting the raw figures from performance-counter log text and
//! writing the file are left to the surrounding tooling; this module
//! owns what the record holds and how a CSV line is laid out.

use vstd::prelude::*;

use vstd::string::StringExecFns;

verus! {

/// The captured measurements of one named benchmark run. Every field is
/// carried as the text captured from the log, ready for the CSV.
pub struct TestMetrics {
    pub name: String,
    pub abbreviated_name: String,
    pub task_clock: String,
    pub cpus_utilized: String,
    pub task_clock_cv: String,
    pub cache_misses: String,
    pub cache_misses_cv: String,
    pub branch_misses: String,
    pub branch_misses_cv: String,
    pub instructions: String,
    pub instructions_cv: String,
    pub time_elapsed: String,
    pub time_var_nominal: String,
    pub time_var_percent: String,
}

/// The fixed abbreviation of a run name: each known benchmark maps to
/// its short code, and any other name stands for itself.
pub open spec fn abbrev_of(s: Seq<char>) -> Seq<char> {
    if s == "naive_fragmented"@ {
        "NF"@
    } else if s == "contiguous_strided"@ {
        "CS"@
    } else if s == "contiguous_parallel_strided"@ {
        "CPS"@
    } else if s == "contiguous_tiled"@ {
        "CT"@
    } else if s == "contiguous_parallel_tiled"@ {
        "CPT"@
    } else {
        s
    }
}

impl TestMetrics {
    /// Every field is empty.
    pub open spec fn is_blank(self) -> bool {
        &&& self.name@ == Seq::<char>::empty()
        &&& self.abbreviated_name@ == Seq::<char>::empty()
        &&& self.task_clock@ == Seq::<char>::empty()
        &&& self.cpus_utilized@ == Seq::<char>::empty()
        &&& self.task_clock_cv@ == Seq::<char>::empty()
        &&& self.cache_misses@ == Seq::<char>::empty()
        &&& self.cache_misses_cv@ == Seq::<char>::empty()
        &&& self.branch_misses@ == Seq::<char>::empty()
        &&& self.branch_misses_cv@ == Seq::<char>::empty()
        &&& self.instructions@ == Seq::<char>::empty()
        &&& self.instructions_cv@ == Seq::<char>::empty()
        &&& self.time_elapsed@ == Seq::<char>::empty()
        &&& self.time_var_nominal@ == Seq::<char>::empty()
        &&& self.time_var_percent@ == Seq::<char>::empty()
    }

    /// A record with every field empty, ready to be filled as the
    /// run's log lines are read.
    pub fn new() -> (r: TestMetrics)
        ensures
            r.is_blank(),
    {
        TestMetrics {
            name: String::new(),
            abbreviated_name: String::new(),
            task_clock: String::new(),
            cpus_utilized: String::new(),
            task_clock_cv: String::new(),
            cache_misses: String::new(),
            cache_misses_cv: String::new(),
            branch_misses: String::new(),
            branch_misses_cv: String::new(),
            instructions: String::new(),
            instructions_cv: String::new(),
            time_elapsed: String::new(),
            time_var_nominal: String::new(),
            time_var_percent: String::new(),
        }
    }

    /// A fresh record carrying the run's name and its fixed
    /// abbreviation; the measurement fields stay empty.
    pub fn with_name(name: String) -> (r: TestMetrics)
        ensures
            r.name@ == name@,
            r.abbreviated_name@ == abbrev_of(name@),
            r.task_clock@ == Seq::<char>::empty(),
            r.cpus_utilized@ == Seq::<char>::empty(),
            r.task_clock_cv@ == Seq::<char>::empty(),
            r.cache_misses@ == Seq::<char>::empty(),
            r.cache_misses_cv@ == Seq::<char>::empty(),
            r.branch_misses@ == Seq::<char>::empty(),
            r.branch_misses_cv@ == Seq::<char>::empty(),
            r.instructions@ == Seq::<char>::empty(),
            r.instructions_cv@ == Seq::<char>::empty(),
            r.time_elapsed@ == Seq::<char>::empty(),
            r.time_var_nominal@ == Seq::<char>::empty(),
            r.time_var_percent@ == Seq::<char>::empty(),
    {
        let abbreviated_name = abbreviation(&name);
        let mut r = TestMetrics::new();
        r.name = name;
        r.abbreviated_name = abbreviated_name;
        r
    }

    /// The record as one semicolon-delimited CSV line, fields in the
    /// header's order.
    pub fn csv_row(&self) -> (r: String)
        ensures
            r@ == self.name@ + ";"@ + self.abbreviated_name@ + ";"@ + self.task_clock@ + ";"@
                + self.cpus_utilized@ + ";"@ + self.task_clock_cv@ + ";"@ + self.cache_misses@
                + ";"@ + self.cache_misses_cv@ + ";"@ + self.branch_misses@ + ";"@
                + self.branch_misses_cv@ + ";"@ + self.instructions@ + ";"@
                + self.instructions_cv@ + ";"@ + self.time_elapsed@ + ";"@
                + self.time_var_nominal@ + ";"@ + self.time_var_percent@,
    {
        let mut out = self.name.clone();
        out.append(";");
        out.append(self.abbreviated_name.as_str());
        out.append(";");
        out.append(self.task_clock.as_str());
        out.append(";");
        out.append(self.cpus_utilized.as_str());
        out.append(";");
        out.append(self.task_clock_cv.as_str());
        out.append(";");
        out.append(self.cache_misses.as_str());
        out.append(";");
        out.append(self.cache_misses_cv.as_str());
        out.append(";");
        out.append(self.branch_misses.as_str());
        out.append(";");
        out.append(self.branch_misses_cv.as_str());
        out.append(";");
        out.append(self.instructions.as_str());
        out.append(";");
        out.append(self.instructions_cv.as_str());
        out.append(";");
        out.append(self.time_elapsed.as_str());
        out.append(";");
        out.append(self.time_var_nominal.as_str());
        out.append(";");
        out.append(self.time_var_percent.as_str());
        out
    }
}

/// The header line of the CSV report, naming the fields in the order
/// `csv_row` writes them.
pub fn csv_header() -> (r: String)
    ensures
        r@
            == "Test Name;Abbreviated Name;Task Clock (msec);CPUs Utilized;Task Clock CV(%);Core Cache Misses;Cache Miss CV(%);Core Branch Misses;Branch Miss CV(%);Core Instructions;Instructions CV(%);Time Elapsed (s);Time Var Nominal (+-);Time Var Percent (+-%)"@,
{
    String::from_str(
        "Test Name;Abbreviated Name;Task Clock (msec);CPUs Utilized;Task Clock CV(%);Core Cache Misses;Cache Miss CV(%);Core Branch Misses;Branch Miss CV(%);Core Instructions;Instructions CV(%);Time Elapsed (s);Time Var Nominal (+-);Time Var Percent (+-%)",
    )
}

/// The fixed abbreviation of a run name, as `abbrev_of` states it.
pub fn abbreviation(name: &String) -> (r: String)
    ensures
        r@ == abbrev_of(name@),
{
    if *name == String::from_str("naive_fragmented") {
        String::from_str("NF")
    } else if *name == String::from_str("contiguous_strided") {
        String::from_str("CS")
    } else if *name == String::from_str("contiguous_parallel_strided") {
        String::from_str("CPS")
    } else if *name == String::from_str("contiguous_tiled") {
        String::from_str("CT")
    } else if *name == String::from_str("contiguous_parallel_tiled") {
        String::from_str("CPT")
    } else {
        name.clone()
    }
}

} // verus!
