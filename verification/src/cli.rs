//! The command line: what a run is asked to do.

use vstd::prelude::*;
use crate::input::meta::{ascii_lower_seq, char_ascii_lower, CellMeta};
use crate::input::{string_views, InputBundle};
use crate::model::thresholds::NuclearScoringMode;
use crate::paths::{join_path, joined_path};
use crate::pipeline::stage7_report::{ReportMode, RunMode};
use crate::text::{chars_of, str_eq, string_of};

verus! {

/// What a run is asked to do.
#[derive(Debug, Clone)]
pub struct RunConfig {
    pub input_dir: String,
    pub out_dir: String,
    pub report_mode: ReportMode,
    pub meta_path: Option<String>,
    pub normalize: bool,
    pub cache_normalized: bool,
    pub scoring_mode: NuclearScoringMode,
    pub run_mode: RunMode,
}

/// What the arguments read so far ask for.
pub struct ArgState {
    pub input_dir: Option<Seq<char>>,
    pub out_dir: Option<Seq<char>>,
    pub report_mode: ReportMode,
    pub meta_path: Option<Seq<char>>,
    pub normalize: bool,
    pub cache_normalized: bool,
    pub scoring_mode: NuclearScoringMode,
    pub run_mode: RunMode,
}

/// The text of an optional string.
pub open spec fn option_view(s: Option<String>) -> Option<Seq<char>> {
    match s {
        Some(t) => Some(t@),
        None => None,
    }
}

/// What a run does where no argument says otherwise.
pub open spec fn default_args() -> ArgState {
    ArgState {
        input_dir: None,
        out_dir: None,
        report_mode: ReportMode::Cell,
        meta_path: None,
        normalize: false,
        cache_normalized: false,
        scoring_mode: NuclearScoringMode::ImmuneAware,
        run_mode: RunMode::Standalone,
    }
}

/// What the arguments from place `i` on make of the state `st`, or the
/// complaint about the first argument that cannot be taken. An option with
/// a value takes the argument after it.
pub open spec fn args_from(args: Seq<Seq<char>>, i: int, st: ArgState) -> Result<ArgState, Seq<char>>
    decreases args.len() - i,
{
    if i < 0 || i >= args.len() {
        Ok(st)
    } else if args[i] == "--input"@ {
        if i + 1 >= args.len() {
            Err("missing value for --input"@)
        } else {
            args_from(args, i + 2, ArgState { input_dir: Some(args[i + 1]), ..st })
        }
    } else if args[i] == "--out"@ {
        if i + 1 >= args.len() {
            Err("missing value for --out"@)
        } else {
            args_from(args, i + 2, ArgState { out_dir: Some(args[i + 1]), ..st })
        }
    } else if args[i] == "--mode"@ {
        if i + 1 >= args.len() {
            Err("missing value for --mode"@)
        } else if args[i + 1] == "cell"@ {
            args_from(args, i + 2, ArgState { report_mode: ReportMode::Cell, ..st })
        } else if args[i + 1] == "sample"@ {
            args_from(args, i + 2, ArgState { report_mode: ReportMode::Sample, ..st })
        } else {
            Err("invalid --mode (use cell|sample)"@)
        }
    } else if args[i] == "--meta"@ {
        if i + 1 >= args.len() {
            Err("missing value for --meta"@)
        } else {
            args_from(args, i + 2, ArgState { meta_path: Some(args[i + 1]), ..st })
        }
    } else if args[i] == "--normalize"@ {
        args_from(args, i + 1, ArgState { normalize: true, ..st })
    } else if args[i] == "--cache-normalized"@ {
        args_from(args, i + 1, ArgState { cache_normalized: true, ..st })
    } else if args[i] == "--strict-nuclear"@ {
        args_from(args, i + 1, ArgState { scoring_mode: NuclearScoringMode::StrictBulk, ..st })
    } else if args[i] == "--run-mode"@ {
        if i + 1 >= args.len() {
            Err("missing value for --run-mode"@)
        } else if args[i + 1] == "standalone"@ {
            args_from(args, i + 2, ArgState { run_mode: RunMode::Standalone, ..st })
        } else if args[i + 1] == "pipeline"@ {
            args_from(args, i + 2, ArgState { run_mode: RunMode::Pipeline, ..st })
        } else {
            Err("invalid --run-mode (use standalone|pipeline)"@)
        }
    } else {
        Err("unknown argument: "@ + args[i])
    }
}

/// What the arguments of a command line ask for, or the complaint about
/// them: the command must be `run`, and input and output directory must be
/// named.
pub open spec fn args_outcome(args: Seq<Seq<char>>) -> Result<ArgState, Seq<char>> {
    if args.len() == 0 {
        Err("missing command"@)
    } else if args[0] != "run"@ {
        Err("unsupported command"@)
    } else {
        match args_from(args, 1, default_args()) {
            Err(e) => Err(e),
            Ok(st) => if st.input_dir is None {
                Err("missing --input"@)
            } else if st.out_dir is None {
                Err("missing --out"@)
            } else {
                Ok(st)
            },
        }
    }
}

impl RunConfig {
    /// Whether the options are those of the state `st`.
    pub open spec fn holds(&self, st: ArgState) -> bool {
        &&& st.input_dir == Some(self.input_dir@)
        &&& st.out_dir == Some(self.out_dir@)
        &&& st.report_mode == self.report_mode
        &&& st.meta_path == option_view(self.meta_path)
        &&& st.normalize == self.normalize
        &&& st.cache_normalized == self.cache_normalized
        &&& st.scoring_mode == self.scoring_mode
        &&& st.run_mode == self.run_mode
    }
}

/// Reads the arguments of a command line.
pub fn parse_args(args: &[String]) -> (r: Result<RunConfig, String>)
    ensures
        match r {
            Ok(config) => args_outcome(string_views(args@)) is Ok && config.holds(
                args_outcome(string_views(args@))->Ok_0,
            ),
            Err(e) => args_outcome(string_views(args@)) == Err::<ArgState, Seq<char>>(e@),
        },
{
    let ghost all = string_views(args@);
    if args.len() == 0 {
        return Err(String::from_str("missing command"));
    }
    proof {
        assert(all[0] == args@[0]@);
    }
    if !str_eq(args[0].as_str(), "run") {
        return Err(String::from_str("unsupported command"));
    }
    let mut input_dir: Option<String> = None;
    let mut out_dir: Option<String> = None;
    let mut report_mode: ReportMode = ReportMode::Cell;
    let mut meta_path: Option<String> = None;
    let mut normalize: bool = false;
    let mut cache_normalized: bool = false;
    let mut scoring_mode: NuclearScoringMode = NuclearScoringMode::ImmuneAware;
    let mut run_mode: RunMode = RunMode::Standalone;
    let mut i: usize = 1;
    while i < args.len()
        invariant
            1 <= i <= args.len() + 1,
            all == string_views(args@),
            args_from(all, 1, default_args()) == args_from(
                all,
                i as int,
                ArgState {
                    input_dir: option_view(input_dir),
                    out_dir: option_view(out_dir),
                    report_mode,
                    meta_path: option_view(meta_path),
                    normalize,
                    cache_normalized,
                    scoring_mode,
                    run_mode,
                },
            ),
            args_outcome(all) == (match args_from(all, 1, default_args()) {
                Err(e) => Err::<ArgState, Seq<char>>(e),
                Ok(st) => if st.input_dir is None {
                    Err("missing --input"@)
                } else if st.out_dir is None {
                    Err("missing --out"@)
                } else {
                    Ok(st)
                },
            }),
        decreases args.len() + 1 - i,
    {
        let arg: &str = args[i].as_str();
        let has_value: bool = i + 1 < args.len();
        proof {
            assert(all[i as int] == args@[i as int]@);
            if has_value {
                assert(all[i + 1] == args@[i + 1]@);
            }
        }
        if str_eq(arg, "--input") {
            if !has_value {
                return Err(String::from_str("missing value for --input"));
            }
            input_dir = Some(args[i + 1].clone());
            i += 2;
        } else if str_eq(arg, "--out") {
            if !has_value {
                return Err(String::from_str("missing value for --out"));
            }
            out_dir = Some(args[i + 1].clone());
            i += 2;
        } else if str_eq(arg, "--mode") {
            if !has_value {
                return Err(String::from_str("missing value for --mode"));
            }
            if str_eq(args[i + 1].as_str(), "cell") {
                report_mode = ReportMode::Cell;
            } else if str_eq(args[i + 1].as_str(), "sample") {
                report_mode = ReportMode::Sample;
            } else {
                return Err(String::from_str("invalid --mode (use cell|sample)"));
            }
            i += 2;
        } else if str_eq(arg, "--meta") {
            if !has_value {
                return Err(String::from_str("missing value for --meta"));
            }
            meta_path = Some(args[i + 1].clone());
            i += 2;
        } else if str_eq(arg, "--normalize") {
            normalize = true;
            i += 1;
        } else if str_eq(arg, "--cache-normalized") {
            cache_normalized = true;
            i += 1;
        } else if str_eq(arg, "--strict-nuclear") {
            scoring_mode = NuclearScoringMode::StrictBulk;
            i += 1;
        } else if str_eq(arg, "--run-mode") {
            if !has_value {
                return Err(String::from_str("missing value for --run-mode"));
            }
            if str_eq(args[i + 1].as_str(), "standalone") {
                run_mode = RunMode::Standalone;
            } else if str_eq(args[i + 1].as_str(), "pipeline") {
                run_mode = RunMode::Pipeline;
            } else {
                return Err(String::from_str("invalid --run-mode (use standalone|pipeline)"));
            }
            i += 2;
        } else {
            return Err(String::from_str("unknown argument: ").concat(arg));
        }
    }
    let input_dir: String = match input_dir {
        Some(d) => d,
        None => { return Err(String::from_str("missing --input")); },
    };
    let out_dir: String = match out_dir {
        Some(d) => d,
        None => { return Err(String::from_str("missing --out")); },
    };
    Ok(
        RunConfig {
            input_dir,
            out_dir,
            report_mode,
            meta_path,
            normalize,
            cache_normalized,
            scoring_mode,
            run_mode,
        },
    )
}

/// The directory that the reports go to: the given one for a run on its
/// own, and its subdirectory `kira-nuclearqc` for a pipeline run.
pub fn resolve_output_dir(base: &str, run_mode: RunMode) -> (dir: String)
    ensures
        dir@ == (match run_mode {
            RunMode::Standalone => base@,
            RunMode::Pipeline => joined_path(base@, "kira-nuclearqc"@),
        }),
{
    match run_mode {
        RunMode::Standalone => String::from_str(base),
        RunMode::Pipeline => join_path(base, "kira-nuclearqc"),
    }
}

/// The place of the last of the first `n` columns whose name is `name` in
/// any case, or -1 where there is none.
pub open spec fn last_named(columns: Seq<Seq<char>>, name: Seq<char>, n: int) -> int
    decreases n,
{
    if n <= 0 {
        -1
    } else if ascii_lower_seq(columns[n - 1]) == name {
        n - 1
    } else {
        last_named(columns, name, n - 1)
    }
}

/// The values of column `at`, row by row; the empty text for a row that is
/// too short.
pub open spec fn column_values(rows: Seq<Seq<Seq<char>>>, at: int) -> Seq<Seq<char>> {
    Seq::new(
        rows.len(),
        |k: int|
            if 0 <= at < rows[k].len() {
                rows[k][at]
            } else {
                Seq::empty()
            },
    )
}

/// The values of the column named `name`, where there is one.
pub open spec fn named_column(columns: Seq<Seq<char>>, rows: Seq<Seq<Seq<char>>>, name: Seq<char>)
    -> Option<Seq<Seq<char>>> {
    let at = last_named(columns, name, columns.len() as int);
    if at < 0 {
        None
    } else {
        Some(column_values(rows, at))
    }
}

/// The values of the metadata column named `name` in any case; of several
/// such columns the last counts.
pub fn meta_column(meta: &CellMeta, name: &str) -> (r: Option<Vec<String>>)
    ensures
        match r {
            Some(values) => named_column(meta@.columns, meta@.rows, name@) == Some(
                string_views(values@),
            ),
            None => named_column(meta@.columns, meta@.rows, name@) is None,
        },
{
    let ghost columns = meta@.columns;
    let mut at: usize = meta.columns.len();
    let mut found: bool = false;
    while at > 0 && !found
        invariant
            at <= meta.columns@.len(),
            columns == string_views(meta.columns@),
            !found ==> last_named(columns, name@, columns.len() as int) == last_named(
                columns,
                name@,
                at as int,
            ),
            found ==> at < meta.columns@.len() && last_named(columns, name@, columns.len() as int)
                == at,
        decreases at + (if found { 0int } else { 1 }),
    {
        let chars: Vec<char> = chars_of(meta.columns[at - 1].as_str());
        let mut lower: Vec<char> = Vec::new();
        let mut i: usize = 0;
        while i < chars.len()
            invariant
                i <= chars@.len(),
                lower@ == ascii_lower_seq(chars@.take(i as int)),
            decreases chars@.len() - i,
        {
            lower.push(char_ascii_lower(chars[i]));
            proof {
                assert(ascii_lower_seq(chars@.take(i + 1)) =~= ascii_lower_seq(
                    chars@.take(i as int),
                ).push(crate::input::meta::ascii_lower(chars@[i as int])));
            }
            i += 1;
        }
        proof {
            assert(chars@.take(i as int) =~= chars@);
            assert(columns[at - 1] == meta.columns@[at - 1]@);
        }
        let text: String = string_of(lower.as_slice());
        at -= 1;
        if str_eq(text.as_str(), name) {
            found = true;
        }
    }
    if !found {
        return None;
    }
    let ghost rows = meta@.rows;
    let mut values: Vec<String> = Vec::new();
    let mut k: usize = 0;
    while k < meta.rows.len()
        invariant
            k <= meta.rows@.len(),
            rows == meta@.rows,
            values@.len() == k,
            forall|j: int| 0 <= j < k ==> (#[trigger] values@[j])@ == column_values(rows, at as int)[j],
        decreases meta.rows@.len() - k,
    {
        proof {
            assert(rows[k as int] == string_views(meta.rows@[k as int]@));
        }
        if at < meta.rows[k].len() {
            proof {
                assert(string_views(meta.rows@[k as int]@)[at as int] == meta.rows@[k as int]@[at as int]@);
            }
            values.push(meta.rows[k][at].clone());
        } else {
            values.push(String::new());
        }
        k += 1;
    }
    proof {
        assert(string_views(values@) =~= column_values(rows, at as int));
    }
    Some(values)
}

/// The sample, the condition and the species of every cell, as far as the
/// metadata of the bundle has columns of those names.
pub fn extract_meta(bundle: &InputBundle) -> (r: (
    Option<Vec<String>>,
    Option<Vec<String>>,
    Option<Vec<String>>,
))
    ensures
        match bundle.meta {
            None => r.0 is None && r.1 is None && r.2 is None,
            Some(meta) => {
                &&& crate::input::option_rows(r.0) == named_column(
                    meta@.columns,
                    meta@.rows,
                    "sample"@,
                )
                &&& crate::input::option_rows(r.1) == named_column(
                    meta@.columns,
                    meta@.rows,
                    "condition"@,
                )
                &&& crate::input::option_rows(r.2) == named_column(
                    meta@.columns,
                    meta@.rows,
                    "species"@,
                )
            },
        },
{
    match &bundle.meta {
        None => (None, None, None),
        Some(meta) => {
            let sample: Option<Vec<String>> = meta_column(meta, "sample");
            let condition: Option<Vec<String>> = meta_column(meta, "condition");
            let species: Option<Vec<String>> = meta_column(meta, "species");
            (sample, condition, species)
        },
    }
}

} // verus!
