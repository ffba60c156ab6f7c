use vstd::prelude::*;
use crate::error::Error;
use crate::types::Ffix;

verus! {

/// One line of a range report: a named value, the two ends of the range it
/// has covered, and how much of the span that its format allows this is.
///
/// The ends are grid indices; divided by `2^frac_bits` they are the numbers
/// themselves. The percentage is the exact fraction
/// `percent_numerator / percent_denominator`.
#[derive(Debug)]
pub struct ReportEntry {
    pub name: String,
    pub lower: i64,
    pub upper: i64,
    pub frac_bits: u32,
    pub percent_numerator: i128,
    pub percent_denominator: i128,
}

impl ReportEntry {
    /// The entry reports the range of `variable` under the name `name`:
    /// the percentage is one hundred times the width of the range over the
    /// distance between the limits of the format.
    pub open spec fn describes(self, name: Seq<char>, variable: Ffix) -> bool {
        let range = variable.spec_range();
        let format = variable.spec_format();
        &&& self.name@ == name
        &&& self.lower == range.lower
        &&& self.upper == range.upper
        &&& self.frac_bits == format.spec_frac_bits()
        &&& self.percent_numerator == 100 * range.spec_width()
        &&& self.percent_denominator == format.spec_upper_limit() - format.spec_lower_limit()
    }

    /// The range of a well-formed value covers between nothing and all of
    /// what its format allows: the percentage lies between 0 and 100.
    pub proof fn lemma_percentage_bounds(self, name: Seq<char>, variable: Ffix)
        requires
            variable.wf(),
            self.describes(name, variable),
        ensures
            self.percent_denominator > 0,
            0 <= self.percent_numerator <= 100 * self.percent_denominator,
    {
        variable.spec_format().lemma_limits();
    }
}

/// A named set of fixed-point values whose ranges are reported
/// together, in the order in which they were given.
pub struct RangeAnalyzer {
    variables: Vec<Ffix>,
    names: Vec<String>,
}

impl RangeAnalyzer {
    #[verifier::type_invariant]
    pub(crate) open spec fn inv(self) -> bool {
        self.wf()
    }

    /// The values under analysis.
    pub closed spec fn spec_variables(self) -> Seq<Ffix> {
        self.variables@
    }

    /// The names of the values, each as its characters.
    pub closed spec fn spec_names(self) -> Seq<Seq<char>> {
        Seq::new(self.names@.len(), |i: int| self.names@[i]@)
    }

    /// There is one name for each value, and each value is well-formed.
    pub open spec fn wf(self) -> bool {
        &&& self.spec_variables().len() == self.spec_names().len()
        &&& forall|i: int| 0 <= i < self.spec_variables().len() ==> (#[trigger] self.spec_variables()[i]).wf()
    }

    /// Collects the values `vars` under the names `names`, one name for each
    /// value. Where their numbers differ `ArityMismatch` is reported.
    pub fn new(vars: &Vec<Ffix>, names: Vec<String>) -> (r: Result<RangeAnalyzer, Error>)
        ensures
            vars@.len() == names@.len() <==> r is Ok,
            r is Err ==> r->Err_0 == Error::ArityMismatch,
            r is Ok ==> {
                let analyzer = r->Ok_0;
                &&& analyzer.wf()
                &&& analyzer.spec_variables() == vars@
                &&& analyzer.spec_names().len() == names@.len()
                &&& forall|i: int| 0 <= i < names@.len() ==> #[trigger] analyzer.spec_names()[i] == names@[i]@
            },
    {
        if vars.len() != names.len() {
            return Err(Error::ArityMismatch);
        }
        let mut variables: Vec<Ffix> = Vec::new();
        let mut i: usize = 0;
        while i < vars.len()
            invariant
                i <= vars.len(),
                variables@ == vars@.subrange(0, i as int),
                forall|j: int| 0 <= j < i ==> (#[trigger] variables@[j]).wf(),
            decreases vars.len() - i,
        {
            let variable: Ffix = vars[i];
            proof {
                use_type_invariant(&variable);
            }
            variables.push(variable);
            assert(variables@ =~= vars@.subrange(0, i + 1));
            i = i + 1;
        }
        assert(variables@ =~= vars@);
        Ok(RangeAnalyzer { variables, names })
    }

    /// The number of values under analysis.
    pub fn len(&self) -> (r: usize)
        ensures
            r == self.spec_variables().len(),
    {
        self.variables.len()
    }

    /// The report: one entry for each value, in the order in which the
    /// values were given.
    pub fn report(&self) -> (r: Vec<ReportEntry>)
        ensures
            r@.len() == self.spec_variables().len(),
            forall|i: int| 0 <= i < r@.len() ==> (#[trigger] r@[i]).describes(
                self.spec_names()[i],
                self.spec_variables()[i],
            ),
    {
        proof {
            use_type_invariant(self);
        }
        let mut entries: Vec<ReportEntry> = Vec::new();
        let mut i: usize = 0;
        while i < self.variables.len()
            invariant
                i <= self.variables.len(),
                self.wf(),
                entries@.len() == i,
                forall|j: int| 0 <= j < i ==> (#[trigger] entries@[j]).describes(
                    self.spec_names()[j],
                    self.spec_variables()[j],
                ),
            decreases self.variables.len() - i,
        {
            let variable: Ffix = self.variables[i];
            let format = variable.format();
            let range = variable.range();
            let upper_limit: i64 = format.upper_limit();
            let lower_limit: i64 = format.lower_limit();
            proof {
                format.lemma_limits();
            }
            let entry = ReportEntry {
                name: self.names[i].clone(),
                lower: range.lower,
                upper: range.upper,
                frac_bits: format.frac_bits(),
                percent_numerator: 100 * range.width(),
                percent_denominator: upper_limit as i128 - lower_limit as i128,
            };
            entries.push(entry);
            i = i + 1;
        }
        entries
    }
}

} // verus!
