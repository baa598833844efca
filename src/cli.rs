use vstd::prelude::*;

verus! {

/// Milliseconds in an hour.
pub const HOUR_MS: i64 = 3_600_000;

/// Milliseconds in a day.
pub const DAY_MS: i64 = 86_400_000;

/// Milliseconds in a week.
pub const WEEK_MS: i64 = 604_800_000;

/// Weeks in the reporting range when none is chosen.
pub const DEFAULT_WEEKS: i64 = 8;

/// A reporting option that cannot be honoured.
#[derive(Debug, Clone, Copy, PartialEq, Eq, Structural)]
pub enum ConfigError {
    /// More than one of hours, days and weeks was given.
    ConflictingRanges,
    /// The reporting range or the sample size is not positive.
    NonPositiveWidth,
    /// The reporting range or the sample size does not fit in milliseconds.
    OutOfRange,
}

/// Options that steer a report.
pub struct Options {
    pub metrics: Vec<String>,
    pub sample_size: Option<i64>,
    pub filter: Option<String>,
    pub weeks: Option<i64>,
    pub hours: Option<i64>,
    pub days: Option<i64>,
    pub verbose: bool,
    pub now: bool,
    pub today: bool,
    pub debug: bool,
}

/// How many of the three range options are given.
pub open spec fn ranges_given(o: &Options) -> int {
    (if o.days is Some { 1int } else { 0 }) + (if o.weeks is Some { 1int } else { 0 }) + (if o.hours
        is Some { 1int } else { 0 })
}

/// The reporting range in milliseconds: days, else weeks, else hours, else
/// the default of eight weeks.
pub open spec fn range_ms(o: &Options) -> int {
    if o.days is Some {
        o.days->0 * DAY_MS
    } else if o.weeks is Some {
        o.weeks->0 * WEEK_MS
    } else if o.hours is Some {
        o.hours->0 * HOUR_MS
    } else {
        DEFAULT_WEEKS * WEEK_MS
    }
}

/// A width in milliseconds checked for use: positive and within `i64`.
pub open spec fn checked_width(w: int) -> Result<i64, ConfigError> {
    if w <= 0 {
        Err(ConfigError::NonPositiveWidth)
    } else if w > i64::MAX {
        Err(ConfigError::OutOfRange)
    } else {
        Ok(w as i64)
    }
}

/// `count` units of `unit` milliseconds, checked as `checked_width` does.
fn width_of(count: i64, unit: i64) -> (r: Result<i64, ConfigError>)
    requires
        unit > 0,
    ensures
        r == checked_width(count * unit),
{
    if count <= 0 {
        proof {
            assert(count * unit <= 0) by (nonlinear_arith)
                requires count <= 0, unit > 0;
        }
        return Err(ConfigError::NonPositiveWidth);
    }
    proof {
        assert(count * unit <= 0x8000_0000_0000_0000 * 0x8000_0000_0000_0000) by (nonlinear_arith)
            requires 0 < count <= 0x8000_0000_0000_0000, 0 < unit <= 0x8000_0000_0000_0000;
    }
    let w: i128 = count as i128 * unit as i128;
    proof {
        assert(count * unit > 0) by (nonlinear_arith)
            requires count > 0, unit > 0;
    }
    if w > i64::MAX as i128 {
        Err(ConfigError::OutOfRange)
    } else {
        Ok(w as i64)
    }
}

impl Options {
    /// The metric files to read.
    pub fn metrics(&self) -> (r: &Vec<String>)
        ensures
            r == &self.metrics,
    {
        &self.metrics
    }

    /// The reporting range in milliseconds. At most one of days, weeks and
    /// hours may be given; with none, the range is eight weeks.
    pub fn duration(&self) -> (r: Result<i64, ConfigError>)
        ensures
            ranges_given(self) > 1 ==> r == Err::<i64, ConfigError>(ConfigError::ConflictingRanges),
            ranges_given(self) <= 1 ==> r == checked_width(range_ms(self)),
    {
        let given: u8 = (if self.days.is_some() { 1u8 } else { 0 }) + (if self.weeks.is_some() {
            1u8
        } else {
            0
        }) + (if self.hours.is_some() { 1u8 } else { 0 });
        if given > 1 {
            return Err(ConfigError::ConflictingRanges);
        }
        match self.days {
            Some(d) => width_of(d, DAY_MS),
            None => match self.weeks {
                Some(w) => width_of(w, WEEK_MS),
                None => match self.hours {
                    Some(h) => width_of(h, HOUR_MS),
                    None => width_of(DEFAULT_WEEKS, WEEK_MS),
                },
            },
        }
    }

    /// The width of one sample in milliseconds: the given number of days,
    /// or else the whole reporting range.
    pub fn sample_size(&self) -> (r: Result<i64, ConfigError>)
        ensures
            self.sample_size is Some ==> r == checked_width(self.sample_size->0 * DAY_MS),
            self.sample_size is None && ranges_given(self) > 1 ==> r == Err::<i64, ConfigError>(
                ConfigError::ConflictingRanges,
            ),
            self.sample_size is None && ranges_given(self) <= 1 ==> r == checked_width(range_ms(self)),
    {
        match self.sample_size {
            Some(d) => width_of(d, DAY_MS),
            None => self.duration(),
        }
    }

    /// The build-name prefix to keep, if any.
    pub fn filter(&self) -> (r: &Option<String>)
        ensures
            r == &self.filter,
    {
        &self.filter
    }

    /// Whether the report ends at the present instant.
    pub fn now(&self) -> (r: bool)
        ensures
            r == self.now,
    {
        self.now
    }

    /// Whether the report takes in the current day, ending at the start of
    /// the next one.
    pub fn today(&self) -> (r: bool)
        ensures
            r == self.today,
    {
        self.today
    }

    /// Whether more output was asked for.
    pub fn verbose(&self) -> (r: bool)
        ensures
            r == self.verbose,
    {
        self.verbose
    }

    /// Whether debug output was asked for.
    pub fn debug(&self) -> (r: bool)
        ensures
            r == self.debug,
    {
        self.debug
    }
}

} // verus!
