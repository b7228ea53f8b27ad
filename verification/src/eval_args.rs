//! Command-line options of the retrieval evaluation harness.

use crate::settings::LlmSettings;
use crate::text::{parse_i32, parsed_i32, texts};
use vstd::prelude::*;

verus! {

/// Options of one evaluation run.
pub struct Config {
    /// Path of the dataset JSON file.
    pub dataset: String,
    /// How many bullets to retrieve per query.
    pub top_k: i32,
    /// Ollama model tag of the judge.
    pub model: String,
    /// Base URL of the Ollama server.
    pub ollama_url: String,
    /// Directory where the report is written.
    pub out_dir: String,
    /// Whether every corpus bullet is judged, not only the retrieved ones.
    pub judge_all_pairs: bool,
}

/// The characters of every field of a [`Config`].
pub struct ConfigView {
    pub dataset: Seq<char>,
    pub top_k: i32,
    pub model: Seq<char>,
    pub ollama_url: Seq<char>,
    pub out_dir: Seq<char>,
    pub judge_all_pairs: bool,
}

impl View for Config {
    type V = ConfigView;

    open spec fn view(&self) -> ConfigView {
        ConfigView {
            dataset: self.dataset@,
            top_k: self.top_k,
            model: self.model@,
            ollama_url: self.ollama_url@,
            out_dir: self.out_dir@,
            judge_all_pairs: self.judge_all_pairs,
        }
    }
}

/// Why option parsing stopped before producing a configuration.
pub enum ArgsStop {
    /// `-h` or `--help`: print the usage line and exit successfully.
    Help,
    /// An argument that is no option; exit with status 2.
    UnknownArgument(String),
    /// An option that takes a value came last; the text is the option.
    MissingValue(String),
    /// The value of `--top-k` is not an `i32`; the text is the value.
    InvalidTopK(String),
}

/// The characters of an [`ArgsStop`].
pub enum ArgsStopView {
    Help,
    UnknownArgument(Seq<char>),
    MissingValue(Seq<char>),
    InvalidTopK(Seq<char>),
}

impl View for ArgsStop {
    type V = ArgsStopView;

    open spec fn view(&self) -> ArgsStopView {
        match self {
            ArgsStop::Help => ArgsStopView::Help,
            ArgsStop::UnknownArgument(a) => ArgsStopView::UnknownArgument(a@),
            ArgsStop::MissingValue(a) => ArgsStopView::MissingValue(a@),
            ArgsStop::InvalidTopK(a) => ArgsStopView::InvalidTopK(a@),
        }
    }
}

/// The usage line printed for `--help`.
pub const USAGE: &'static str = "Usage: eval_rag [--dataset PATH] [--top-k N] [--model TAG] [--ollama-url URL] [--out DIR] [--judge-all-pairs]";

/// The configuration before any option is read.
pub open spec fn default_config() -> ConfigView {
    ConfigView {
        dataset: "evals/rag/dataset.json"@,
        top_k: 10,
        model: "qwen3.5:9b"@,
        ollama_url: "http://localhost:11434"@,
        out_dir: "evals/rag/results"@,
        judge_all_pairs: false,
    }
}

/// Whether `a` is an option that takes the next argument as its value.
pub open spec fn takes_value(a: Seq<char>) -> bool {
    a == "--dataset"@ || a == "--top-k"@ || a == "--model"@ || a == "--ollama-url"@ || a == "--out"@
}

/// `cfg` with the value `v` of a value-taking option other than `--top-k` stored.
pub open spec fn with_value(cfg: ConfigView, option: Seq<char>, v: Seq<char>) -> ConfigView {
    if option == "--dataset"@ {
        ConfigView { dataset: v, ..cfg }
    } else if option == "--model"@ {
        ConfigView { model: v, ..cfg }
    } else if option == "--ollama-url"@ {
        ConfigView { ollama_url: v, ..cfg }
    } else {
        ConfigView { out_dir: v, ..cfg }
    }
}

/// Reads the options in `args` from left to right into `cfg`: a later
/// option overrides an earlier one, and the first argument that stops the
/// parse decides the outcome.
pub open spec fn apply_args(cfg: ConfigView, args: Seq<Seq<char>>) -> Result<ConfigView, ArgsStopView>
    decreases args.len(),
{
    if args.len() == 0 {
        Ok(cfg)
    } else {
        let a = args[0];
        let rest = args.drop_first();
        if takes_value(a) {
            if rest.len() == 0 {
                Err(ArgsStopView::MissingValue(a))
            } else if a == "--top-k"@ {
                match parsed_i32(rest[0]) {
                    Some(n) => apply_args(ConfigView { top_k: n, ..cfg }, rest.drop_first()),
                    None => Err(ArgsStopView::InvalidTopK(rest[0])),
                }
            } else {
                apply_args(with_value(cfg, a, rest[0]), rest.drop_first())
            }
        } else if a == "--judge-all-pairs"@ {
            apply_args(ConfigView { judge_all_pairs: true, ..cfg }, rest)
        } else if a == "-h"@ || a == "--help"@ {
            Err(ArgsStopView::Help)
        } else {
            Err(ArgsStopView::UnknownArgument(a))
        }
    }
}

/// The outcome of parsing the arguments that follow the program name.
pub open spec fn parsed_args(args: Seq<String>) -> Result<ConfigView, ArgsStopView> {
    apply_args(default_config(), texts(args))
}

fn is_text(a: &String, lit: &str) -> (r: bool)
    ensures
        r == (a@ == lit@),
{
    *a == String::from_str(lit)
}

fn default_eval_config() -> (r: Config)
    ensures
        r@ == default_config(),
{
    let defaults = LlmSettings::default();
    let model = match defaults.ollama_model {
        Some(m) => m,
        None => String::from_str("qwen3.5:9b"),
    };
    let ollama_url = match defaults.ollama_url {
        Some(u) => u,
        None => String::from_str("http://localhost:11434"),
    };
    Config {
        dataset: String::from_str("evals/rag/dataset.json"),
        top_k: 10,
        model,
        ollama_url,
        out_dir: String::from_str("evals/rag/results"),
        judge_all_pairs: false,
    }
}

/// Parses the arguments that follow the program name into a configuration,
/// starting from the defaults (the judge model and server come from the
/// default LLM settings).
pub fn parse_args(args: &Vec<String>) -> (r: Result<Config, ArgsStop>)
    ensures
        match r {
            Ok(cfg) => parsed_args(args@) == Ok::<ConfigView, ArgsStopView>(cfg@),
            Err(stop) => parsed_args(args@) == Err::<ConfigView, ArgsStopView>(stop@),
        },
{
    let mut cfg = default_eval_config();
    let n = args.len();
    let mut i: usize = 0;
    let ghost all = texts(args@);
    assert(all.skip(0) =~= all);
    while i < n
        invariant
            n == args@.len(),
            all == texts(args@),
            i <= n,
            apply_args(default_config(), all) == apply_args(cfg@, all.skip(i as int)),
        decreases n - i,
    {
        let arg = &args[i];
        let ghost rest = all.skip(i as int);
        proof {
            assert(rest[0] == arg@);
            assert(rest.drop_first() =~= all.skip(i + 1));
        }
        if is_text(arg, "--dataset") || is_text(arg, "--top-k") || is_text(arg, "--model")
            || is_text(arg, "--ollama-url") || is_text(arg, "--out") {
            if i + 1 >= n {
                return Err(ArgsStop::MissingValue(arg.clone()));
            }
            let value = &args[i + 1];
            proof {
                assert(rest.drop_first()[0] == value@);
                assert(rest.drop_first().drop_first() =~= all.skip(i + 2));
            }
            if is_text(arg, "--top-k") {
                match parse_i32(value.as_str()) {
                    Some(k) => {
                        cfg.top_k = k;
                    },
                    None => {
                        return Err(ArgsStop::InvalidTopK(value.clone()));
                    },
                }
            } else if is_text(arg, "--dataset") {
                cfg.dataset = value.clone();
            } else if is_text(arg, "--model") {
                cfg.model = value.clone();
            } else if is_text(arg, "--ollama-url") {
                cfg.ollama_url = value.clone();
            } else {
                cfg.out_dir = value.clone();
            }
            i = i + 2;
        } else if is_text(arg, "--judge-all-pairs") {
            cfg.judge_all_pairs = true;
            i = i + 1;
        } else if is_text(arg, "-h") || is_text(arg, "--help") {
            return Err(ArgsStop::Help);
        } else {
            return Err(ArgsStop::UnknownArgument(arg.clone()));
        }
    }
    proof {
        assert(all.skip(i as int) =~= Seq::<Seq<char>>::empty());
    }
    Ok(cfg)
}

} // verus!
