//! The server-only data of a trivia room as it is kept in snapshots.

use crate::json::{entries_view, put_field, Json, JsonView};
use crate::trivia::game::{InternalView, TriviaInternal};
use crate::trivia::llm::{Question, QuestionView};
use crate::trivia::state::{list_json, number_or_null, opt_number, texts_json};
use vstd::prelude::*;

verus! {

/// The choices of a round, by session id.
pub open spec fn answers_json(s: Seq<(Seq<char>, usize)>) -> Map<Seq<char>, JsonView>
    decreases s.len(),
{
    if s.len() == 0 {
        Map::empty()
    } else {
        answers_json(s.drop_last()).insert(s.last().0, JsonView::Int(s.last().1 as int))
    }
}

/// A question with its answer.
pub open spec fn solved_json(q: QuestionView) -> JsonView {
    JsonView::Object(
        Map::<Seq<char>, JsonView>::empty().insert("text"@, JsonView::Str(q.text)).insert(
            "choices"@,
            texts_json(q.choices),
        ).insert("answerIndex"@, JsonView::Int(q.answer_index as int)),
    )
}

/// The questions that wait, by the number of their round.
pub open spec fn waiting_json(s: Seq<(Seq<char>, QuestionView)>) -> Map<Seq<char>, JsonView>
    decreases s.len(),
{
    if s.len() == 0 {
        Map::empty()
    } else {
        waiting_json(s.drop_last()).insert(s.last().0, solved_json(s.last().1))
    }
}

/// The server-only data as it is kept in snapshots.
pub open spec fn internal_json(i: InternalView) -> JsonView {
    JsonView::Object(
        Map::<Seq<char>, JsonView>::empty().insert(
            "password"@,
            match i.password {
                Some(p) => JsonView::Str(p),
                None => JsonView::Null,
            },
        ).insert("roundAnswers"@, JsonView::Object(answers_json(i.round_answers))).insert(
            "pendingQuestions"@,
            JsonView::Object(waiting_json(i.pending_questions)),
        ).insert("correctIndex"@, number_or_null(i.correct_index)).insert(
            "batchInFlight"@,
            JsonView::Bool(i.batch_in_flight),
        ).insert(
            "neededRound"@,
            match i.needed_round {
                Some(n) => JsonView::Int(n as int),
                None => JsonView::Null,
            },
        ),
    )
}

impl Question {
    /// The question with its answer.
    pub fn to_json(&self) -> (r: Json)
        ensures
            r@ == solved_json(self@),
    {
        let mut es: Vec<(String, Json)> = Vec::new();
        put_field(&mut es, "text", Json::Str(self.text.clone()));
        put_field(&mut es, "choices", list_json(&self.choices));
        put_field(&mut es, "answerIndex", Json::Uint(self.answer_index as u64));
        Json::Object(es)
    }
}

impl TriviaInternal {
    fn answers_object(&self) -> (r: Vec<(String, Json)>)
        ensures
            entries_view(r@) == answers_json(self@.round_answers),
    {
        let ghost all = self@.round_answers;
        let mut es: Vec<(String, Json)> = Vec::new();
        let mut i: usize = 0;
        proof {
            assert(all.take(0) =~= seq![]);
        }
        while i < self.round_answers.entries.len()
            invariant
                i <= self.round_answers.entries.len(),
                all == self@.round_answers,
                entries_view(es@) == answers_json(all.take(i as int)),
            decreases self.round_answers.entries.len() - i,
        {
            let e: &(String, usize) = &self.round_answers.entries[i];
            proof {
                assert(all.take(i + 1).drop_last() =~= all.take(i as int));
                assert(all[i as int] == (e.0@, e.1@));
            }
            put_field(&mut es, e.0.as_str(), Json::Uint(e.1 as u64));
            i = i + 1;
        }
        proof {
            assert(all.take(all.len() as int) =~= all);
        }
        es
    }

    fn questions_object(&self) -> (r: Vec<(String, Json)>)
        ensures
            entries_view(r@) == waiting_json(self@.pending_questions),
    {
        let ghost all = self@.pending_questions;
        let mut es: Vec<(String, Json)> = Vec::new();
        let mut i: usize = 0;
        proof {
            assert(all.take(0) =~= seq![]);
        }
        while i < self.pending_questions.entries.len()
            invariant
                i <= self.pending_questions.entries.len(),
                all == self@.pending_questions,
                entries_view(es@) == waiting_json(all.take(i as int)),
            decreases self.pending_questions.entries.len() - i,
        {
            let e: &(String, Question) = &self.pending_questions.entries[i];
            proof {
                assert(all.take(i + 1).drop_last() =~= all.take(i as int));
                assert(all[i as int] == (e.0@, e.1@));
            }
            put_field(&mut es, e.0.as_str(), e.1.to_json());
            i = i + 1;
        }
        proof {
            assert(all.take(all.len() as int) =~= all);
        }
        es
    }

    /// The data as it is kept in snapshots.
    pub fn to_json(&self) -> (r: Json)
        ensures
            r@ == internal_json(self@),
    {
        let password: Json = match &self.password {
            Some(p) => Json::Str(p.clone()),
            None => Json::Null,
        };
        let needed: Json = match self.needed_round {
            Some(n) => Json::Uint(n as u64),
            None => Json::Null,
        };
        let mut es: Vec<(String, Json)> = Vec::new();
        put_field(&mut es, "password", password);
        put_field(&mut es, "roundAnswers", Json::Object(self.answers_object()));
        put_field(&mut es, "pendingQuestions", Json::Object(self.questions_object()));
        put_field(&mut es, "correctIndex", opt_number(self.correct_index));
        put_field(&mut es, "batchInFlight", Json::Bool(self.batch_in_flight));
        put_field(&mut es, "neededRound", needed);
        Json::Object(es)
    }
}

}
