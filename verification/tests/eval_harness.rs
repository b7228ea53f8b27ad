use resume_builder::eval_args::{parse_args, ArgsStop};
use resume_builder::judge::{judge_outcome, judge_prompt, parse_grade, JudgeOutcome};
use resume_builder::metrics::{
    already_retrieved, count_hits, count_relevant, first_relevant, ideal_grades, tally_relevant,
};
use resume_builder::text::truncate;

fn args(list: &[&str]) -> Vec<String> {
    list.iter().map(|s| s.to_string()).collect()
}

#[test]
fn judge_prompt_trims_and_frames_both_texts() {
    let p = judge_prompt("  Senior Rust engineer\n", "\tBuilt a compiler  ");
    let expected = "You are evaluating whether a resume bullet point is relevant to a job \
description. Grade the relevance on a 0-3 scale:\n\
  0 = irrelevant\n\
  1 = slightly related\n\
  2 = relevant\n\
  3 = highly relevant / strong match\n\n\
Respond with ONLY a single digit (0, 1, 2, or 3) and nothing else.\n\n\
Job description:\nSenior Rust engineer\n\nResume bullet:\nBuilt a compiler\n\nRelevance (0-3):";
    assert_eq!(p, expected);
}

#[test]
fn judge_prompt_with_blank_texts() {
    let p = judge_prompt("   ", "");
    assert!(p.ends_with("Job description:\n\n\nResume bullet:\n\n\nRelevance (0-3):"));
}

#[test]
fn parse_grade_takes_first_grade_digit() {
    assert_eq!(parse_grade("2"), Some(2));
    assert_eq!(parse_grade("Relevance: 3/3"), Some(3));
    assert_eq!(parse_grade("9 then 1"), Some(1));
    assert_eq!(parse_grade("0"), Some(0));
    assert_eq!(parse_grade("four"), None);
    assert_eq!(parse_grade(""), None);
    assert_eq!(parse_grade("789"), None);
}

#[test]
fn parse_grade_reads_each_digit_of_the_scale() {
    for d in 0u8..=3 {
        assert_eq!(parse_grade(&d.to_string()), Some(d));
    }
}

#[test]
fn judge_outcome_falls_back_to_zero() {
    let graded = judge_outcome(Ok("The answer is 2".to_string()));
    assert!(matches!(graded, JudgeOutcome::Graded(2)));
    assert_eq!(graded.grade(), 2);

    let unparsable = judge_outcome(Ok("no idea".to_string()));
    assert!(matches!(&unparsable, JudgeOutcome::Unparsable(t) if t == "no idea"));
    assert_eq!(unparsable.grade(), 0);

    let failed = judge_outcome(Err("connection refused".to_string()));
    assert!(matches!(&failed, JudgeOutcome::Failed(e) if e == "connection refused"));
    assert_eq!(failed.grade(), 0);
}

#[test]
fn truncate_keeps_short_text() {
    assert_eq!(truncate("short", 14), "short");
    assert_eq!(truncate("exactly14chars", 14), "exactly14chars");
    assert_eq!(truncate("", 0), "");
}

#[test]
fn truncate_cuts_long_text_with_ellipsis() {
    assert_eq!(truncate("abcdefghij", 5), "abcd…");
    assert_eq!(truncate("abcdefghij", 1), "…");
    assert_eq!(truncate("abc", 0), "…");
    assert_eq!(truncate("héllo wörld", 6), "héllo…");
    assert_eq!(truncate("abcdefghij", 5).chars().count(), 5);
}

#[test]
fn ideal_grades_sorts_descending_and_truncates() {
    assert_eq!(ideal_grades(&vec![1, 3, 0, 2, 3], 3), vec![3, 3, 2]);
    assert_eq!(ideal_grades(&vec![1, 3, 0, 2, 3], 10), vec![3, 3, 2, 1, 0]);
    assert_eq!(ideal_grades(&vec![2, 1], 0), Vec::<u8>::new());
    assert_eq!(ideal_grades(&vec![], 4), Vec::<u8>::new());
}

#[test]
fn ideal_grades_is_idempotent() {
    let once = ideal_grades(&vec![0, 2, 1, 3, 2], 4);
    assert_eq!(ideal_grades(&once, 4), once);
}

#[test]
fn ideal_grades_keeps_relevant_count() {
    let pool = vec![0, 2, 1, 3, 2, 0, 3];
    let ideal = ideal_grades(&pool, pool.len());
    assert_eq!(count_relevant(&ideal), count_relevant(&pool));
    assert_eq!(count_relevant(&pool), 4);
}

#[test]
fn relevance_counts_and_first_relevant() {
    assert_eq!(count_relevant(&vec![0, 1, 2, 3, 1]), 2);
    assert_eq!(count_relevant(&vec![]), 0);
    assert_eq!(first_relevant(&vec![0, 1, 2, 3]), Some(2));
    assert_eq!(first_relevant(&vec![3]), Some(0));
    assert_eq!(first_relevant(&vec![0, 1, 1]), None);
    assert_eq!(first_relevant(&vec![]), None);
}

#[test]
fn no_first_relevant_exactly_when_count_is_zero() {
    for grades in [vec![0u8, 1, 0], vec![1, 2], vec![], vec![3, 0]] {
        assert_eq!(first_relevant(&grades).is_none(), count_relevant(&grades) == 0);
    }
}

#[test]
fn ground_truth_hits() {
    let relevant = args(&["a", "b", "c", "a"]);
    let retrieved = args(&["c", "a", "z"]);
    assert_eq!(count_hits(&relevant, &retrieved), 3);
    assert_eq!(count_hits(&relevant, &vec![]), 0);
    assert_eq!(count_hits(&vec![], &retrieved), 0);
}

#[test]
fn already_retrieved_needs_key_and_id() {
    let id_keys = vec![(1i64, "alpha".to_string()), (2, "beta".to_string()), (3, "alpha".to_string())];
    assert!(already_retrieved(&"alpha".to_string(), &id_keys, &vec![3]));
    assert!(!already_retrieved(&"beta".to_string(), &id_keys, &vec![1, 3]));
    assert!(!already_retrieved(&"gamma".to_string(), &id_keys, &vec![1, 2, 3]));
}

#[test]
fn parse_args_defaults() {
    let cfg = parse_args(&vec![]).ok().expect("defaults");
    assert_eq!(cfg.dataset, "evals/rag/dataset.json");
    assert_eq!(cfg.top_k, 10);
    assert_eq!(cfg.model, "qwen3.5:9b");
    assert_eq!(cfg.ollama_url, "http://localhost:11434");
    assert_eq!(cfg.out_dir, "evals/rag/results");
    assert!(!cfg.judge_all_pairs);
}

#[test]
fn parse_args_reads_every_option_and_last_wins() {
    let cfg = parse_args(&args(&[
        "--dataset", "d.json", "--top-k", "5", "--model", "m", "--ollama-url", "http://h:1",
        "--out", "o", "--judge-all-pairs", "--top-k", "+7",
    ]))
    .ok()
    .expect("valid");
    assert_eq!(cfg.dataset, "d.json");
    assert_eq!(cfg.top_k, 7);
    assert_eq!(cfg.model, "m");
    assert_eq!(cfg.ollama_url, "http://h:1");
    assert_eq!(cfg.out_dir, "o");
    assert!(cfg.judge_all_pairs);
}

#[test]
fn parse_args_negative_and_extreme_top_k() {
    assert_eq!(parse_args(&args(&["--top-k", "-3"])).ok().unwrap().top_k, -3);
    assert_eq!(parse_args(&args(&["--top-k", "2147483647"])).ok().unwrap().top_k, i32::MAX);
    assert_eq!(parse_args(&args(&["--top-k", "-2147483648"])).ok().unwrap().top_k, i32::MIN);
}

#[test]
fn parse_args_stops() {
    assert!(matches!(parse_args(&args(&["--help"])), Err(ArgsStop::Help)));
    assert!(matches!(parse_args(&args(&["-h", "--bogus"])), Err(ArgsStop::Help)));
    assert!(matches!(parse_args(&args(&["--bogus", "-h"])),
        Err(ArgsStop::UnknownArgument(a)) if a == "--bogus"));
    assert!(matches!(parse_args(&args(&["--model"])),
        Err(ArgsStop::MissingValue(a)) if a == "--model"));
    assert!(matches!(parse_args(&args(&["--top-k", "ten"])),
        Err(ArgsStop::InvalidTopK(v)) if v == "ten"));
    assert!(matches!(parse_args(&args(&["--top-k", "2147483648"])),
        Err(ArgsStop::InvalidTopK(_))));
    assert!(matches!(parse_args(&args(&["--top-k", " 5"])), Err(ArgsStop::InvalidTopK(_))));
    assert!(matches!(parse_args(&args(&["--top-k", "-"])), Err(ArgsStop::InvalidTopK(_))));
}

#[test]
fn parse_args_value_may_look_like_an_option() {
    let cfg = parse_args(&args(&["--model", "--help"])).ok().unwrap();
    assert_eq!(cfg.model, "--help");
}

#[test]
fn tally_adds_one_per_relevant_grade() {
    assert_eq!(tally_relevant(4, 2), 5);
    assert_eq!(tally_relevant(4, 3), 5);
    assert_eq!(tally_relevant(4, 1), 4);
    assert_eq!(tally_relevant(0, 0), 0);
    let grades = [0u8, 2, 3, 1, 2];
    let total = grades.iter().fold(0usize, |c, &g| tally_relevant(c, g));
    assert_eq!(total, count_relevant(&grades.to_vec()));
}

#[test]
fn grade_of_concatenated_replies() {
    assert_eq!(parse_grade(&format!("{}{}", "none here", "3")), Some(3));
    assert_eq!(parse_grade(&format!("{}{}", "1", "3")), Some(1));
}
