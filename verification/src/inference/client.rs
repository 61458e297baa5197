//! The classification service: what it is asked, and what its reply means.
use vstd::prelude::*;
use vstd::string::*;

use crate::error::MastError;
use crate::text;

verus! {

/// A request for a zero-shot classification.
#[derive(Debug)]
pub struct ZeroShotRequest {
    pub inputs: String,
    pub candidate_labels: Vec<String>,
    pub multi_label: bool,
}

/// The labels between which the service chooses.
pub open spec fn labels() -> Seq<Seq<char>> {
    seq![
        "normal activity"@,
        "brute force attack"@,
        "unauthorized device"@,
        "credential stuffing"@,
        "anomalous traffic"@,
    ]
}

/// The request about a prompt.
pub fn request_for(prompt: String) -> (r: ZeroShotRequest)
    ensures
        r.inputs@ == prompt@,
        text::string_texts(r.candidate_labels@) == labels(),
        !r.multi_label,
{
    let mut candidate_labels: Vec<String> = Vec::new();
    candidate_labels.push("normal activity".to_string());
    candidate_labels.push("brute force attack".to_string());
    candidate_labels.push("unauthorized device".to_string());
    candidate_labels.push("credential stuffing".to_string());
    candidate_labels.push("anomalous traffic".to_string());
    assert(text::string_texts(candidate_labels@) =~= labels());
    ZeroShotRequest { inputs: prompt, candidate_labels, multi_label: false }
}

/// Result of one classification. Scores are the bits of 32-bit floating-point
/// numbers.
#[derive(Debug)]
pub struct AnalysisResult {
    /// Highest-confidence label.
    pub label: String,
    /// Confidence score for the top label.
    pub score_bits: u32,
    /// All labels and scores.
    pub all: Vec<(String, u32)>,
}

/// What an `AnalysisResult` holds.
#[verifier::ext_equal]
pub struct AnalysisView {
    pub label: Seq<char>,
    pub score_bits: u32,
    pub all: Seq<(Seq<char>, u32)>,
}

impl View for AnalysisResult {
    type V = AnalysisView;

    open spec fn view(&self) -> AnalysisView {
        AnalysisView {
            label: self.label@,
            score_bits: self.score_bits,
            all: Seq::new(self.all@.len(), |i: int| (self.all@[i].0@, self.all@[i].1)),
        }
    }
}

/// What came of a request.
#[derive(Debug)]
pub enum HfReply {
    /// It could not be sent; the error's text.
    NotSent(String),
    /// The service refused it; the status as text.
    Refused(String),
    /// The reply could not be read; the error's text.
    Unreadable(String),
    /// The labels, and the score of each.
    Classified { labels: Vec<String>, scores: Vec<u32> },
}

/// Where the number with these bits lies among the others: the first bit is the
/// sign, and the rest orders the magnitudes. Zero and minus zero are equal. A
/// reply is JSON, so it holds no NaN.
pub open spec fn rank(bits: u32) -> int {
    if bits < 0x8000_0000 {
        bits as int
    } else {
        0x8000_0000 - bits
    }
}

/// The first position of the largest of the first `n` scores.
pub open spec fn is_top(scores: Seq<u32>, n: nat, k: int) -> bool {
    &&& 0 <= k < n
    &&& forall|j: int| 0 <= j < n ==> rank(#[trigger] scores[j]) <= rank(scores[k])
    &&& forall|j: int| 0 <= j < k ==> rank(#[trigger] scores[j]) < rank(scores[k])
}

/// How many labels have a score.
pub open spec fn scored(labels: Seq<Seq<char>>, scores: Seq<u32>) -> nat {
    if labels.len() <= scores.len() {
        labels.len()
    } else {
        scores.len()
    }
}

/// The result that labels and scores give: of the labels that have a score, the
/// one with the largest, and that score; where none has one, the first label or
/// the empty one, and the first score or zero; and the labels with their scores.
pub open spec fn is_analysis(a: AnalysisView, labels: Seq<Seq<char>>, scores: Seq<u32>) -> bool {
    let n = scored(labels, scores);
    &&& if n == 0 {
        &&& a.label == (if labels.len() > 0 {
            labels[0]
        } else {
            Seq::empty()
        })
        &&& a.score_bits == (if scores.len() > 0 {
            scores[0]
        } else {
            0
        })
    } else {
        exists|k: int| #[trigger]
            is_top(scores, n, k) && a.label == labels[k] && a.score_bits == scores[k]
    }
    &&& a.all == Seq::new(n, |i: int| (labels[i], scores[i]))
}

fn rank_of(bits: u32) -> (r: i64)
    ensures
        r == rank(bits),
{
    if bits < 0x8000_0000 {
        bits as i64
    } else {
        0x8000_0000 - (bits as i64)
    }
}

fn top_of(scores: &Vec<u32>, n: usize) -> (k: usize)
    requires
        0 < n <= scores.len(),
    ensures
        is_top(scores@, n as nat, k as int),
{
    let mut k: usize = 0;
    let mut i: usize = 1;
    while i < n
        invariant
            k < i <= n <= scores.len(),
            forall|j: int| 0 <= j < i ==> rank(#[trigger] scores@[j]) <= rank(scores@[k as int]),
            forall|j: int| 0 <= j < k ==> rank(#[trigger] scores@[j]) < rank(scores@[k as int]),
        decreases n - i,
    {
        if rank_of(scores[i]) > rank_of(scores[k]) {
            k = i;
        }
        i += 1;
    }
    k
}

/// The message with which a reply is an error, if it is one.
pub open spec fn error_text(reply: HfReply) -> Option<Seq<char>> {
    match reply {
        HfReply::NotSent(e) => Some("HF request failed: "@ + e@),
        HfReply::Refused(status) => Some("HF API returned "@ + status@),
        HfReply::Unreadable(e) => Some("HF response parse error: "@ + e@),
        HfReply::Classified { .. } => None,
    }
}

/// What a reply means.
pub fn interpret(reply: HfReply) -> (r: Result<AnalysisResult, MastError>)
    ensures
        match reply {
            HfReply::NotSent(e) => r matches Err(MastError::Inference(m)) && m@
                == "HF request failed: "@ + e@,
            HfReply::Refused(status) => r matches Err(MastError::Inference(m)) && m@
                == "HF API returned "@ + status@,
            HfReply::Unreadable(e) => r matches Err(MastError::Inference(m)) && m@
                == "HF response parse error: "@ + e@,
            HfReply::Classified { labels, scores } => r matches Ok(a) && is_analysis(
                a@,
                text::string_texts(labels@),
                scores@,
            ),
        },
        match error_text(reply) {
            Some(t) => r matches Err(MastError::Inference(m)) && m@ == t,
            None => r is Ok,
        },
{
    match reply {
        HfReply::NotSent(e) => Err(
            MastError::Inference("HF request failed: ".to_string().concat(e.as_str())),
        ),
        HfReply::Refused(status) => Err(
            MastError::Inference("HF API returned ".to_string().concat(status.as_str())),
        ),
        HfReply::Unreadable(e) => Err(
            MastError::Inference("HF response parse error: ".to_string().concat(e.as_str())),
        ),
        HfReply::Classified { labels, scores } => {
            let mut all: Vec<(String, u32)> = Vec::new();
            let mut i: usize = 0;
            while i < labels.len() && i < scores.len()
                invariant
                    i <= labels.len(),
                    i <= scores.len(),
                    all.len() == i,
                    forall|k: int|
                        0 <= k < i ==> (#[trigger] all@[k]).0@ == labels@[k]@ && all@[k].1
                            == scores@[k],
                decreases labels.len() - i,
            {
                all.push((labels[i].clone(), scores[i]));
                i += 1;
            }
            let top: usize = if i > 0 {
                top_of(&scores, i)
            } else {
                0
            };
            let label = if top < labels.len() {
                labels[top].clone()
            } else {
                String::new()
            };
            let score_bits: u32 = if top < scores.len() {
                scores[top]
            } else {
                0
            };
            let a = AnalysisResult { label, score_bits, all };
            proof {
                let names = text::string_texts(labels@);
                let n = scored(names, scores@);
                assert(n == i);
                if n == 0 && labels.len() == 0 {
                    assert(a@.label =~= Seq::empty());
                }
                if n > 0 {
                    assert(is_top(scores@, n, top as int));
                    assert(a@.label == names[top as int]);
                }
                assert(a@.all =~= Seq::new(n, |i: int| (names[i], scores@[i])));
            }
            Ok(a)
        },
    }
}

} // verus!
