//! Engine-level error kinds and the parsing of voice option strings.
//!
//! A voice's spectrum stream carries free-form `KEY=value` options; the
//! engine reads `GAMMA` (the filter stage), `LN_GAIN` (log-gain flag) and
//! `ALPHA` (the warping constant).  The recognition and integer parsing
//! are done here; the `ALPHA` value is handed out as raw text for the
//! caller's floating-point reading.

use vstd::prelude::*;

use crate::model::parser::base::{is_digit_char, lemma_scan_end, scan_end};
use crate::model::parser::tree::digits_val;
use crate::model::ModelError;

verus! {

broadcast use lemma_scan_end;

/// Failures in reading labels.
#[derive(Debug, Clone, PartialEq, Eq)]
pub enum LabelError {
    /// The label sequence is empty.
    Empty,
    /// A time field could not be read.
    MalformedTime,
    /// Alignment times do not increase, or leave the utterance.
    NonMonotonicTimes,
}

/// Failures surfaced while configuring the engine.
#[derive(Debug, Clone, PartialEq, Eq)]
pub enum EngineError {
    ModelError(ModelError),
    /// A recognized option key carries a value that does not parse; holds
    /// the key.
    ParseOptionError(String),
    LabelError(LabelError),
}

/// The settings read from a spectrum stream's option strings.  A field is
/// `None` where no option named it; `alpha` is kept as raw text.
#[derive(Debug, Clone, PartialEq, Eq)]
pub struct SpectrumOptions {
    pub stage: Option<usize>,
    pub use_log_gain: Option<bool>,
    pub alpha: Option<String>,
}

/// Spec-level image of `SpectrumOptions`.
pub struct SpecOptions {
    pub stage: Option<int>,
    pub use_log_gain: Option<bool>,
    pub alpha: Option<Seq<char>>,
}

impl SpectrumOptions {
    /// The settings, for specification purposes.
    pub open spec fn spec_of(&self) -> SpecOptions {
        SpecOptions {
            stage: match self.stage {
                Some(v) => Some(v as int),
                None => None,
            },
            use_log_gain: self.use_log_gain,
            alpha: match self.alpha {
                Some(ref s) => Some(s@),
                None => None,
            },
        }
    }
}

/// The predicate that scans up to the first `=`, for specifications.
pub open spec fn not_eq_pred() -> spec_fn(char) -> bool {
    |c: char| c != '='
}

/// What `str::parse::<usize>` accepts: an optional `+`, then one or more
/// digits and nothing else, denoting a number that fits the machine word.
pub open spec fn spec_parse_usize(s: Seq<char>) -> Option<int> {
    let d0: int = if s.len() > 0 && s[0] == '+' {
        1
    } else {
        0
    };
    if s.len() <= d0 {
        None
    } else if exists|k: int| d0 <= k < s.len() && !is_digit_char(#[trigger] s[k]) {
        None
    } else {
        let m = digits_val(s.subrange(d0, s.len() as int));
        if m <= usize::MAX {
            Some(m)
        } else {
            None
        }
    }
}

/// Reads a decimal `usize` the way `str::parse` does.
pub fn parse_usize(s: &str) -> (r: Option<usize>)
    ensures
        match (r, spec_parse_usize(s@)) {
            (Some(v), Some(m)) => v as int == m,
            (None, None) => true,
            _ => false,
        },
{
    let n = s.unicode_len();
    let d0: usize = if n > 0 && s.get_char(0) == '+' {
        1
    } else {
        0
    };
    if n <= d0 {
        return None;
    }
    let mut acc: usize = 0;
    let mut i: usize = d0;
    while i < n
        invariant
            d0 <= i <= n,
            n == s@.len(),
            d0 < n,
            d0 == (if s@.len() > 0 && s@[0] == '+' {
                1int
            } else {
                0int
            }),
            forall|k: int| d0 <= k < i ==> is_digit_char(#[trigger] s@[k]),
            acc as int == digits_val(s@.subrange(d0 as int, i as int)),
        decreases n - i,
    {
        let c = s.get_char(i);
        let u = c as u32;
        if !(48 <= u && u <= 57) {
            proof {
                assert(!is_digit_char(s@[i as int]));
            }
            return None;
        }
        let d = u - 48;
        proof {
            assert(s@.subrange(d0 as int, i + 1).drop_last() =~= s@.subrange(d0 as int, i as int));
            assert(s@.subrange(d0 as int, i + 1).last() == s@[i as int]);
        }
        let stepped = match acc.checked_mul(10) {
            Some(x) => x.checked_add(d as usize),
            None => None,
        };
        match stepped {
            Some(y) => {
                acc = y;
            },
            None => {
                proof {
                    let full = s@.subrange(d0 as int, n as int);
                    let pre = s@.subrange(d0 as int, i + 1);
                    assert(digits_val(pre) > usize::MAX);
                    // the remaining characters must all be digits, or the
                    // spec is `None` anyway; either way `None` is right
                    if forall|k: int| d0 <= k < n ==> is_digit_char(#[trigger] s@[k]) {
                        assert(forall|k: int|
                            0 <= k < full.len() ==> is_digit_char(#[trigger] full[k]));
                        crate::model::parser::tree::lemma_digits_val_mono(full, i + 1 - d0);
                        assert(pre =~= full.subrange(0, i + 1 - d0));
                    }
                }
                return None;
            },
        }
        i += 1;
    }
    proof {
        assert(s@.subrange(d0 as int, n as int) =~= s@.subrange(d0 as int, i as int));
    }
    Some(acc)
}

/// One option string applied to the settings: `KEY=value` with a known key
/// updates a field (a bad value names the key in the error); anything else
/// is skipped.
pub open spec fn spec_apply_option(st: SpecOptions, opt: Seq<char>) -> Result<
    SpecOptions,
    Seq<char>,
> {
    let e = scan_end(opt, 0, not_eq_pred());
    if e == opt.len() {
        Ok(st)
    } else {
        let key = opt.subrange(0, e);
        let value = opt.subrange(e + 1, opt.len() as int);
        if key == "GAMMA"@ {
            match spec_parse_usize(value) {
                Some(v) => Ok(
                    SpecOptions {
                        stage: Some(v),
                        use_log_gain: st.use_log_gain,
                        alpha: st.alpha,
                    },
                ),
                None => Err(key),
            }
        } else if key == "LN_GAIN"@ {
            if value == "1"@ {
                Ok(SpecOptions { stage: st.stage, use_log_gain: Some(true), alpha: st.alpha })
            } else if value == "0"@ {
                Ok(SpecOptions { stage: st.stage, use_log_gain: Some(false), alpha: st.alpha })
            } else {
                Err(key)
            }
        } else if key == "ALPHA"@ {
            Ok(SpecOptions { stage: st.stage, use_log_gain: st.use_log_gain, alpha: Some(value) })
        } else {
            Ok(st)
        }
    }
}

/// All option strings applied in order; the first bad value stops the fold
/// with its key.
pub open spec fn spec_fold_options(st: SpecOptions, opts: Seq<Seq<char>>) -> Result<
    SpecOptions,
    Seq<char>,
>
    decreases opts.len(),
{
    if opts.len() == 0 {
        Ok(st)
    } else {
        match spec_apply_option(st, opts[0]) {
            Ok(st2) => spec_fold_options(st2, opts.drop_first()),
            Err(k) => Err(k),
        }
    }
}

/// The empty settings the fold starts from.
pub open spec fn spec_no_options() -> SpecOptions {
    SpecOptions { stage: None, use_log_gain: None, alpha: None }
}

fn scan_to_eq(s: &str) -> (r: usize)
    ensures
        r == scan_end(s@, 0, not_eq_pred()),
        r <= s@.len(),
{
    let n = s.unicode_len();
    let mut i: usize = 0;
    while i < n
        invariant
            i <= n,
            n == s@.len(),
            scan_end(s@, 0, not_eq_pred()) == scan_end(s@, i as int, not_eq_pred()),
        decreases n - i,
    {
        if s.get_char(i) == '=' {
            return i;
        }
        i += 1;
    }
    i
}

/// Applies one option string to the settings.
fn apply_option(st: SpectrumOptions, opt: &String) -> (r: Result<SpectrumOptions, EngineError>)
    ensures
        match spec_apply_option(st.spec_of(), opt@) {
            Ok(st2) => r matches Ok(v) && v.spec_of() == st2,
            Err(k) => r matches Err(EngineError::ParseOptionError(s)) && s@ == k,
        },
{
    let s = opt.as_str();
    let n = s.unicode_len();
    let e = scan_to_eq(s);
    if e == n {
        return Ok(st);
    }
    let key = s.substring_char(0, e);
    let value = s.substring_char(e + 1, n);
    proof {
        reveal_strlit("GAMMA");
        reveal_strlit("LN_GAIN");
        reveal_strlit("ALPHA");
        reveal_strlit("1");
        reveal_strlit("0");
    }
    if crate::text::str_equal(key, "GAMMA") {
        match parse_usize(value) {
            Some(v) => Ok(
                SpectrumOptions {
                    stage: Some(v),
                    use_log_gain: st.use_log_gain,
                    alpha: st.alpha,
                },
            ),
            None => Err(EngineError::ParseOptionError(key.to_owned())),
        }
    } else if crate::text::str_equal(key, "LN_GAIN") {
        if crate::text::str_equal(value, "1") {
            Ok(SpectrumOptions { stage: st.stage, use_log_gain: Some(true), alpha: st.alpha })
        } else if crate::text::str_equal(value, "0") {
            Ok(SpectrumOptions { stage: st.stage, use_log_gain: Some(false), alpha: st.alpha })
        } else {
            Err(EngineError::ParseOptionError(key.to_owned()))
        }
    } else if crate::text::str_equal(key, "ALPHA") {
        Ok(
            SpectrumOptions {
                stage: st.stage,
                use_log_gain: st.use_log_gain,
                alpha: Some(value.to_owned()),
            },
        )
    } else {
        Ok(st)
    }
}

/// Reads the spectrum stream's option strings in order.
///
/// Returns the settings they name, or `ParseOptionError` with the first
/// key whose value does not parse.  Unknown keys and strings without `=`
/// are skipped.
pub fn parse_stream_options(options: &Vec<String>) -> (r: Result<SpectrumOptions, EngineError>)
    ensures
        match spec_fold_options(spec_no_options(), options.deep_view()) {
            Ok(st) => r matches Ok(v) && v.spec_of() == st,
            Err(k) => r matches Err(EngineError::ParseOptionError(s)) && s@ == k,
        },
{
    let mut st = SpectrumOptions { stage: None, use_log_gain: None, alpha: None };
    let mut i: usize = 0;
    proof {
        assert(options.deep_view().skip(0) =~= options.deep_view());
    }
    while i < options.len()
        invariant
            i <= options@.len(),
            options.deep_view().len() == options@.len(),
            spec_fold_options(spec_no_options(), options.deep_view()) == spec_fold_options(
                st.spec_of(),
                options.deep_view().skip(i as int),
            ),
        decreases options@.len() - i,
    {
        proof {
            assert(options.deep_view().skip(i as int)[0] == options@[i as int]@);
            assert(options.deep_view().skip(i as int).drop_first() =~= options.deep_view().skip(
                i + 1,
            ));
        }
        st = match apply_option(st, &options[i]) {
            Ok(v) => v,
            Err(e) => {
                return Err(e);
            },
        };
        i += 1;
    }
    proof {
        assert(options.deep_view().skip(options@.len() as int) =~= Seq::<Seq<char>>::empty());
    }
    Ok(st)
}

} // verus!
