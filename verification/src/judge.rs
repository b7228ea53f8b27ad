//! The LLM-judge side of the retrieval evaluation: the prompt that asks for
//! a relevance grade, and reading the grade back from the reply.

use crate::text::{is_trim_of, lemma_trimmed_is_trim, trim, trimmed};
use vstd::prelude::*;

verus! {

/// The fixed instructions that open every judge prompt, ending where the job
/// description is inserted.
pub const JUDGE_INSTRUCTIONS: &'static str = "You are evaluating whether a resume bullet point is relevant to a job description. Grade the relevance on a 0-3 scale:\n0 = irrelevant\n1 = slightly related\n2 = relevant\n3 = highly relevant / strong match\n\nRespond with ONLY a single digit (0, 1, 2, or 3) and nothing else.\n\nJob description:\n";

/// The text between the job description and the bullet.
pub const JUDGE_BULLET_HEADER: &'static str = "\n\nResume bullet:\n";

/// The text that closes every judge prompt.
pub const JUDGE_CLOSING: &'static str = "\n\nRelevance (0-3):";

/// The judge prompt for one (job description, bullet) pair.
pub open spec fn judge_prompt_text(job_description: Seq<char>, bullet: Seq<char>) -> Seq<char> {
    JUDGE_INSTRUCTIONS@ + trimmed(job_description) + JUDGE_BULLET_HEADER@ + trimmed(bullet)
        + JUDGE_CLOSING@
}

/// The judge prompt is the instructions, the whole job description without
/// its surrounding whitespace, the bullet header, the whole bullet without its
/// surrounding whitespace, and the closing line; no inner character of
/// either text is dropped or changed.
pub proof fn lemma_judge_prompt_holds_whole_texts(job_description: Seq<char>, bullet: Seq<char>)
    ensures
        exists|j: Seq<char>, b: Seq<char>|
            judge_prompt_text(job_description, bullet) == JUDGE_INSTRUCTIONS@ + j
                + "\n\nResume bullet:\n"@ + b + "\n\nRelevance (0-3):"@ && #[trigger] is_trim_of(
                j,
                job_description,
            ) && #[trigger] is_trim_of(b, bullet),
{
    lemma_trimmed_is_trim(job_description);
    lemma_trimmed_is_trim(bullet);
    let j = trimmed(job_description);
    let b = trimmed(bullet);
    assert(is_trim_of(j, job_description) && is_trim_of(b, bullet));
}

/// Build the LLM-judge prompt for a single (job description, bullet) pair.
pub fn judge_prompt(job_description: &str, bullet: &str) -> (r: String)
    ensures
        r@ == judge_prompt_text(job_description@, bullet@),
{
    let mut r = String::from_str(JUDGE_INSTRUCTIONS);
    let jd = trim(job_description);
    r.append(jd.as_str());
    r.append(JUDGE_BULLET_HEADER);
    let b = trim(bullet);
    r.append(b.as_str());
    r.append(JUDGE_CLOSING);
    r
}

/// Whether `c` is one of the grade digits `0` to `3`.
pub open spec fn is_grade_char(c: char) -> bool {
    '0' <= c && c <= '3'
}

/// The value of the first grade digit (`0` to `3`) in `s`, if there is one.
pub open spec fn first_grade(s: Seq<char>) -> Option<u8>
    decreases s.len(),
{
    if s.len() == 0 {
        None
    } else if is_grade_char(s[0]) {
        Some(((s[0] as nat) - ('0' as nat)) as u8)
    } else {
        first_grade(s.drop_first())
    }
}

proof fn lemma_first_grade_skip(s: Seq<char>, i: int)
    requires
        0 <= i <= s.len(),
        forall|k: int| 0 <= k < i ==> !is_grade_char(#[trigger] s[k]),
    ensures
        first_grade(s) == first_grade(s.skip(i)),
    decreases i,
{
    if i > 0 {
        assert forall|k: int| 0 <= k < i - 1 implies !is_grade_char(#[trigger] s.drop_first()[k]) by {
            assert(s.drop_first()[k] == s[k + 1]);
        }
        assert(!is_grade_char(s[0]));
        lemma_first_grade_skip(s.drop_first(), i - 1);
        assert(s.drop_first().skip(i - 1) =~= s.skip(i));
    } else {
        assert(s.skip(0) =~= s);
    }
}

/// The grade read from a reply is the value of a digit 0-3 that occurs in it
/// with no digit 0-3 before it; there is no grade exactly when the reply
/// holds no digit 0-3.
pub proof fn lemma_first_grade_is_first_digit(s: Seq<char>)
    ensures
        first_grade(s) matches Some(g) ==> exists|i: int|
            0 <= i < s.len() && '0' <= #[trigger] s[i] <= '3' && (s[i] as nat) == ('0' as nat) + g
                && forall|k: int| 0 <= k < i ==> !('0' <= #[trigger] s[k] <= '3'),
        first_grade(s) is None <==> forall|k: int| 0 <= k < s.len() ==> !('0' <= #[trigger] s[k] <= '3'),
    decreases s.len(),
{
    if s.len() > 0 {
        let t = s.drop_first();
        lemma_first_grade_is_first_digit(t);
        if !is_grade_char(s[0]) {
            if let Some(g) = first_grade(s) {
                let i = choose|i: int|
                    0 <= i < t.len() && '0' <= #[trigger] t[i] <= '3' && (t[i] as nat) == ('0' as nat) + g
                        && forall|k: int| 0 <= k < i ==> !('0' <= #[trigger] t[k] <= '3');
                assert(s[i + 1] == t[i]);
                assert forall|k: int| 0 <= k < i + 1 implies !('0' <= #[trigger] s[k] <= '3') by {
                    if k > 0 {
                        assert(s[k] == t[k - 1]);
                    }
                }
            }
            if first_grade(s) is None {
                assert forall|k: int| 0 <= k < s.len() implies !('0' <= #[trigger] s[k] <= '3') by {
                    if k > 0 {
                        assert(s[k] == t[k - 1]);
                    }
                }
            }
            if forall|k: int| 0 <= k < s.len() ==> !('0' <= #[trigger] s[k] <= '3') {
                assert forall|k: int| 0 <= k < t.len() implies !('0' <= #[trigger] t[k] <= '3') by {
                    assert(t[k] == s[k + 1]);
                }
            }
        } else {
            assert('0' <= s[0] <= '3');
        }
    }
}

/// Every grade read from a reply is at most 3.
pub proof fn lemma_first_grade_in_scale(s: Seq<char>)
    ensures
        first_grade(s) matches Some(g) ==> g <= 3,
    decreases s.len(),
{
    if s.len() > 0 && !is_grade_char(s[0]) {
        lemma_first_grade_in_scale(s.drop_first());
    }
}

/// The grade read from two texts one after the other is the grade of the
/// first text if it holds one, otherwise the grade of the second.
pub proof fn lemma_first_grade_concat(a: Seq<char>, b: Seq<char>)
    ensures
        first_grade(a + b) == match first_grade(a) {
            Some(g) => Some(g),
            None => first_grade(b),
        },
    decreases a.len(),
{
    if a.len() == 0 {
        assert(a + b =~= b);
    } else {
        assert((a + b)[0] == a[0]);
        assert((a + b).drop_first() =~= a.drop_first() + b);
        lemma_first_grade_concat(a.drop_first(), b);
    }
}

/// Extract the first 0-3 digit from the model's reply.
pub fn parse_grade(reply: &str) -> (r: Option<u8>)
    ensures
        r == first_grade(reply@),
        r matches Some(g) ==> g <= 3,
{
    proof {
        lemma_first_grade_in_scale(reply@);
    }
    let n = reply.unicode_len();
    let mut i: usize = 0;
    while i < n
        invariant
            n == reply@.len(),
            i <= n,
            forall|k: int| 0 <= k < i ==> !is_grade_char(#[trigger] reply@[k]),
        decreases n - i,
    {
        let c = reply.get_char(i);
        if '0' <= c && c <= '3' {
            proof {
                lemma_first_grade_skip(reply@, i as int);
            }
            return Some((c as u32 - '0' as u32) as u8);
        }
        i = i + 1;
    }
    proof {
        lemma_first_grade_skip(reply@, n as int);
    }
    None
}

/// What became of one judge call.
pub enum JudgeOutcome {
    /// The reply held a grade.
    Graded(u8),
    /// The reply held no grade digit; the text is the reply.
    Unparsable(String),
    /// The call itself failed; the text is the error.
    Failed(String),
}

impl JudgeOutcome {
    /// The grade that the outcome counts as: a fallback outcome counts as 0.
    pub open spec fn spec_grade(self) -> u8 {
        match self {
            JudgeOutcome::Graded(g) => g,
            _ => 0,
        }
    }

    /// The grade that the outcome counts as (0 when no grade was obtained).
    pub fn grade(&self) -> (r: u8)
        ensures
            r == self.spec_grade(),
    {
        match self {
            JudgeOutcome::Graded(g) => *g,
            _ => 0,
        }
    }
}

/// Reads the judge's reply: the first grade digit of a successful reply, or
/// the reason why no grade was obtained.
pub fn judge_outcome(reply: Result<String, String>) -> (r: JudgeOutcome)
    ensures
        match reply {
            Ok(text) => match first_grade(text@) {
                Some(g) => r == JudgeOutcome::Graded(g),
                None => r == JudgeOutcome::Unparsable(text),
            },
            Err(e) => r == JudgeOutcome::Failed(e),
        },
        r.spec_grade() <= 3,
{
    match reply {
        Ok(text) => match parse_grade(text.as_str()) {
            Some(g) => JudgeOutcome::Graded(g),
            None => JudgeOutcome::Unparsable(text),
        },
        Err(e) => JudgeOutcome::Failed(e),
    }
}

} // verus!
