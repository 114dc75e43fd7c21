//! The working memory of a refinement loop.

use crate::rates::Ratio;
use crate::text::{opt_text, same, views, Text};
use vstd::prelude::*;

verus! {

/// A hypothesis, and the loop in which it was put forward.
#[derive(Debug, Clone)]
pub struct Hypothesis {
    pub loop_index: u8,
    pub content: String,
}

/// What a refinement loop holds between its steps.
#[derive(Debug, Clone)]
pub struct Scratchpad {
    pub task: String,
    pub session_key: Option<String>,
    pub hypotheses: Vec<Hypothesis>,
    pub critiques: Vec<String>,
    pub loop_index: u8,
    pub confidence: Ratio,
    pub halt_reason: Option<String>,
}

/// A hypothesis: the loop in which it was put forward, and what it says.
pub type HypothesisView = (u8, Text);

/// The models of the hypotheses of a pad.
pub open spec fn said(list: Seq<Hypothesis>) -> Seq<HypothesisView> {
    list.map_values(|h: Hypothesis| (h.loop_index, h.content@))
}

/// The model of a pad.
#[verifier::ext_equal]
pub struct PadView {
    pub task: Text,
    pub session_key: Option<Text>,
    pub hypotheses: Seq<HypothesisView>,
    pub critiques: Seq<Text>,
    pub loop_index: u8,
    pub confidence: Ratio,
    pub halt_reason: Option<Text>,
}

impl View for Scratchpad {
    type V = PadView;

    open spec fn view(&self) -> PadView {
        PadView {
            task: self.task@,
            session_key: opt_text(self.session_key),
            hypotheses: said(self.hypotheses@),
            critiques: views(self.critiques@),
            loop_index: self.loop_index,
            confidence: self.confidence,
            halt_reason: opt_text(self.halt_reason),
        }
    }
}

impl Scratchpad {
    /// The confidence is a share of the whole.
    pub open spec fn wf(self) -> bool {
        self.confidence.is_share()
    }

    /// The last two hypotheses say the same.
    pub open spec fn stable(self) -> bool {
        let n = self.hypotheses@.len();
        n >= 2 && self.hypotheses@[n - 1].content@ == self.hypotheses@[n - 2].content@
    }

    /// An empty pad for a task.
    pub fn new(task: &str, session_key: Option<&str>) -> (r: Scratchpad)
        ensures
            r.wf(),
            r.task@ == task@,
            match session_key {
                Some(k) => r.session_key is Some && r.session_key->0@ == k@,
                None => r.session_key is None,
            },
            r.hypotheses@.len() == 0,
            r.critiques@.len() == 0,
            r.loop_index == 0,
            r.confidence == (Ratio { num: 0, den: 1 }),
            r.halt_reason is None,
    {
        Scratchpad {
            task: task.to_owned(),
            session_key: match session_key {
                Some(k) => Some(k.to_owned()),
                None => None,
            },
            hypotheses: Vec::new(),
            critiques: Vec::new(),
            loop_index: 0,
            confidence: Ratio { num: 0, den: 1 },
            halt_reason: None,
        }
    }

    /// Puts a hypothesis forward in the loop `loop_index`.
    pub fn add_hypothesis(&mut self, loop_index: u8, content: &str) -> (r: Result<(), String>)
        ensures
            r is Ok,
            final(self).hypotheses@.len() == old(self).hypotheses@.len() + 1,
            final(self).hypotheses@.drop_last() == old(self).hypotheses@,
            final(self).hypotheses@.last().loop_index == loop_index,
            final(self).hypotheses@.last().content@ == content@,
            final(self).loop_index == loop_index,
            final(self).task == old(self).task,
            final(self).session_key == old(self).session_key,
            final(self).critiques == old(self).critiques,
            final(self).confidence == old(self).confidence,
            final(self).halt_reason == old(self).halt_reason,
    {
        self.hypotheses.push(Hypothesis { loop_index, content: content.to_owned() });
        self.loop_index = loop_index;
        assert(self.hypotheses@.drop_last() == old(self).hypotheses@);
        Ok(())
    }

    /// Notes a critique.
    pub fn add_critique(&mut self, critique: &str)
        ensures
            views(final(self).critiques@) == views(old(self).critiques@).push(critique@),
            final(self).hypotheses == old(self).hypotheses,
            final(self).task == old(self).task,
            final(self).session_key == old(self).session_key,
            final(self).loop_index == old(self).loop_index,
            final(self).confidence == old(self).confidence,
            final(self).halt_reason == old(self).halt_reason,
    {
        self.critiques.push(critique.to_owned());
        assert(views(self.critiques@) == views(old(self).critiques@).push(critique@));
    }

    /// Sets how confident the loop is.
    pub fn set_confidence(&mut self, confidence: Ratio)
        ensures
            final(self).confidence == confidence,
            final(self).hypotheses == old(self).hypotheses,
            final(self).critiques == old(self).critiques,
            final(self).task == old(self).task,
            final(self).session_key == old(self).session_key,
            final(self).loop_index == old(self).loop_index,
            final(self).halt_reason == old(self).halt_reason,
    {
        self.confidence = confidence;
    }

    /// Notes that the loop has halted, and why.
    pub fn set_halted(&mut self, reason: &str)
        ensures
            opt_text(final(self).halt_reason) == Some(reason@),
            final(self).hypotheses == old(self).hypotheses,
            final(self).critiques == old(self).critiques,
            final(self).task == old(self).task,
            final(self).session_key == old(self).session_key,
            final(self).loop_index == old(self).loop_index,
            final(self).confidence == old(self).confidence,
    {
        self.halt_reason = Some(reason.to_owned());
    }

    /// Whether the last two hypotheses say the same.
    pub fn is_stable(&self) -> (r: bool)
        ensures
            r == self.stable(),
    {
        let n = self.hypotheses.len();
        n >= 2 && same(
            self.hypotheses[n - 1].content.as_str(),
            self.hypotheses[n - 2].content.as_str(),
        )
    }
}

} // verus!
