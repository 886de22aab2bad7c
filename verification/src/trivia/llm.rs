//! Questions: how they are asked for, read from an answer and shuffled, and a
//! built-in bank for when there is no answer.

use crate::handler::{copy_texts, get_field, option_field};
use crate::json::{values_view, Json, JsonView};
use crate::query::text_option;
use crate::server::{strip_prefix, stripped};
use crate::text::{
    chars_of, decimal, decimal_text, joined, same_text, slice_text, text_views, trim_text, trimmed,
};
use crate::utils::{is_safe_text, random_text};
use crate::value::{json_parsed, parse_json};
use vstd::prelude::*;
use vstd::string::*;

verus! {

/// How many asked questions are remembered.
pub const RECENT_LIMIT: usize = 200;

/// How many remembered questions a request names.
pub const RECENT_NAMED: usize = 30;

/// A question. Choices are shuffled; `answer_index` points into the shuffled list.
#[derive(Debug)]
pub struct Question {
    pub text: String,
    pub choices: Vec<String>,
    pub answer_index: usize,
}

/// What a question stands for.
pub struct QuestionView {
    pub text: Seq<char>,
    pub choices: Seq<Seq<char>>,
    pub answer_index: usize,
}

impl View for Question {
    type V = QuestionView;

    open spec fn view(&self) -> QuestionView {
        QuestionView {
            text: self.text@,
            choices: text_views(self.choices@),
            answer_index: self.answer_index,
        }
    }
}

/// Questions, read through their views.
pub open spec fn question_views(qs: Seq<Question>) -> Seq<QuestionView> {
    qs.map_values(|q: Question| q@)
}

impl Question {
    /// A question that stands for the same as this one.
    pub fn copy(&self) -> (r: Self)
        ensures
            r@ == self@,
    {
        Question {
            text: self.text.clone(),
            choices: copy_texts(&self.choices),
            answer_index: self.answer_index,
        }
    }
}

// ---------------------------------------------------------------------
// reading answers
// ---------------------------------------------------------------------

/// `t` without `mark` at its start, as often as it is there.
pub open spec fn stripped_start(t: Seq<char>, mark: Seq<char>) -> Seq<char>
    decreases t.len(),
{
    if mark.len() == 0 {
        t
    } else {
        match stripped(t, mark) {
            Some(rest) => if rest.len() < t.len() {
                stripped_start(rest, mark)
            } else {
                t
            },
            None => t,
        }
    }
}

/// `t` without `mark` at its end, as often as it is there.
pub open spec fn stripped_end(t: Seq<char>, mark: Seq<char>) -> Seq<char>
    decreases t.len(),
{
    if mark.len() > 0 && t.len() >= mark.len() && t.skip(t.len() - mark.len()) == mark {
        stripped_end(t.take(t.len() - mark.len()), mark)
    } else {
        t
    }
}

/// An answer's text without the fences of a code block around it.
pub open spec fn unfenced(content: Seq<char>) -> Seq<char> {
    trimmed(
        stripped_end(
            stripped_start(stripped_start(trimmed(content), "```json"@), "```"@),
            "```"@,
        ),
    )
}

fn strip_start(t: &str, mark: &str) -> (r: String)
    requires
        mark@.len() > 0,
    ensures
        r@ == stripped_start(t@, mark@),
{
    let mut cur: String = t.to_owned();
    let ghost mut n: nat = t@.len();
    loop
        invariant
            mark@.len() > 0,
            n == cur@.len(),
            stripped_start(cur@, mark@) == stripped_start(t@, mark@),
        decreases n,
    {
        match strip_prefix(cur.as_str(), mark) {
            Some(rest) => {
                cur = rest;
                proof {
                    n = cur@.len();
                }
            },
            None => {
                return cur;
            },
        }
    }
}

fn strip_end(t: &str, mark: &str) -> (r: String)
    requires
        mark@.len() > 0,
    ensures
        r@ == stripped_end(t@, mark@),
{
    let v: Vec<char> = chars_of(t);
    let m: Vec<char> = chars_of(mark);
    let mut end: usize = v.len();
    proof {
        assert(v@.subrange(0, end as int) =~= t@);
    }
    while end >= m.len()
        invariant
            end <= v.len(),
            m@ == mark@,
            m.len() > 0,
            stripped_end(v@.subrange(0, end as int), mark@) == stripped_end(t@, mark@),
        decreases end,
    {
        let ghost cur = v@.subrange(0, end as int);
        let from: usize = end - m.len();
        let mut k: usize = 0;
        let mut same: bool = true;
        while k < m.len()
            invariant
                k <= m.len(),
                end <= v.len(),
                from == end - m.len(),
                same ==> forall|j: int| 0 <= j < k ==> v@[from + j] == m@[j],
                !same ==> exists|j: int| 0 <= j < k && v@[from + j] != m@[j],
            decreases m.len() - k,
        {
            if v[from + k] != m[k] {
                same = false;
            }
            k = k + 1;
        }
        proof {
            let tail = cur.skip(cur.len() - mark@.len());
            if same {
                assert(tail =~= mark@);
                assert(cur.take(cur.len() - mark@.len()) =~= v@.subrange(0, from as int));
            } else {
                let j = choose|j: int| 0 <= j < m.len() && v@[from + j] != m@[j];
                assert(tail[j] != mark@[j]);
            }
        }
        if !same {
            return slice_text(&v, 0, end);
        }
        end = from;
    }
    slice_text(&v, 0, end)
}

/// An answer's text without the fences of a code block around it.
pub fn strip_fences(content: &str) -> (r: String)
    ensures
        r@ == unfenced(content@),
{
    proof {
        reveal_strlit("```json");
        reveal_strlit("```");
    }
    let a: String = trim_text(content);
    let b: String = strip_start(a.as_str(), "```json");
    let c: String = strip_start(b.as_str(), "```");
    let d: String = strip_end(c.as_str(), "```");
    trim_text(d.as_str())
}

/// A text field.
pub open spec fn text_at(v: JsonView, field: Seq<char>) -> Option<Seq<char>> {
    match option_field(v, field) {
        Some(JsonView::Str(t)) => Some(t),
        _ => None,
    }
}

/// The answer is marked as the correct one.
pub open spec fn is_marked(v: JsonView) -> bool {
    option_field(v, "is_correct"@) == Some(JsonView::Bool(true))
}

/// The place of the first answer that is marked as correct.
pub open spec fn first_marked(answers: Seq<JsonView>) -> Option<int>
    decreases answers.len(),
{
    if answers.len() == 0 {
        None
    } else {
        match first_marked(answers.drop_last()) {
            Some(i) => Some(i),
            None => if is_marked(answers.last()) {
                Some(answers.len() - 1)
            } else {
                None
            },
        }
    }
}

/// The order after two places changed.
pub open spec fn swapped(s: Seq<int>, i: int, j: int) -> Seq<int> {
    s.update(i, s[j]).update(j, s[i])
}

/// The order that random characters put four answers in.
pub open spec fn shuffle_order(entropy: Seq<char>) -> Seq<int> {
    let a = swapped(seq![0int, 1, 2, 3], 3, entropy[3] as u32 as int % 4);
    let b = swapped(a, 2, entropy[2] as u32 as int % 3);
    swapped(b, 1, entropy[1] as u32 as int % 2)
}

/// The place of `x` in the order.
pub open spec fn place_in(order: Seq<int>, x: int) -> int {
    if order[0] == x {
        0
    } else if order[1] == x {
        1
    } else if order[2] == x {
        2
    } else {
        3
    }
}

/// Each answer has a place in the order.
proof fn lemma_shuffle_order(entropy: Seq<char>, x: int)
    requires
        entropy.len() >= 4,
        0 <= x < 4,
    ensures
        shuffle_order(entropy).len() == 4,
        forall|i: int| 0 <= i < 4 ==> 0 <= #[trigger] shuffle_order(entropy)[i] && shuffle_order(
            entropy,
        )[i] < 4,
        shuffle_order(entropy)[place_in(shuffle_order(entropy), x)] == x,
        0 <= place_in(shuffle_order(entropy), x) < 4,
        shuffle_order(entropy).no_duplicates(),
{
    let j3 = entropy[3] as u32 as int % 4;
    let j2 = entropy[2] as u32 as int % 3;
    let j1 = entropy[1] as u32 as int % 2;
    assert(0 <= j3 < 4);
    assert(0 <= j2 < 3);
    assert(0 <= j1 < 2);
    let a = swapped(seq![0int, 1, 2, 3], 3, j3);
    let b = swapped(a, 2, j2);
    let c = swapped(b, 1, j1);
    assert(a.len() == 4 && a.no_duplicates() && forall|i: int|
        0 <= i < 4 ==> 0 <= #[trigger] a[i] && a[i] < 4);
    assert(b.len() == 4 && b.no_duplicates() && forall|i: int|
        0 <= i < 4 ==> 0 <= #[trigger] b[i] && b[i] < 4);
    assert(c.len() == 4 && c.no_duplicates() && forall|i: int|
        0 <= i < 4 ==> 0 <= #[trigger] c[i] && c[i] < 4);
    assert(c[0] != c[1] && c[0] != c[2] && c[0] != c[3] && c[1] != c[2] && c[1] != c[3] && c[2]
        != c[3]);
    assert(0 <= c[0] < 4 && 0 <= c[1] < 4 && 0 <= c[2] < 4 && 0 <= c[3] < 4);
}

/// The texts of answers, if each has one.
pub open spec fn answer_texts(answers: Seq<JsonView>) -> Option<Seq<Seq<char>>>
    decreases answers.len(),
{
    if answers.len() == 0 {
        Some(seq![])
    } else {
        match (answer_texts(answers.drop_last()), text_at(answers.last(), "text"@)) {
            (Some(ts), Some(t)) => Some(ts.push(t)),
            _ => None,
        }
    }
}

/// The question that a value holds, its answers shuffled by random characters, or
/// what is wrong with it.
pub open spec fn question_of(v: JsonView, entropy: Seq<char>) -> Result<QuestionView, Seq<char>> {
    match text_at(v, "question"@) {
        None => Err("missing question"@),
        Some(text) => match option_field(v, "answers"@) {
            Some(JsonView::Array(answers)) => if answers.len() != 4 {
                Err("expected 4 answers, got "@ + decimal(answers.len()))
            } else {
                match answer_texts(answers) {
                    None => Err("missing answer text"@),
                    Some(ts) => match first_marked(answers) {
                        None => Err("no correct answer marked"@),
                        Some(c) => {
                            let order = shuffle_order(entropy);
                            Ok(
                                QuestionView {
                                    text,
                                    choices: order.map_values(|i: int| ts[i]),
                                    answer_index: place_in(order, c) as usize,
                                },
                            )
                        },
                    },
                }
            },
            _ => Err("missing answers"@),
        },
    }
}

proof fn lemma_answer_texts(answers: Seq<JsonView>, n: int)
    requires
        0 <= n <= answers.len(),
        answer_texts(answers) is Some,
    ensures
        answer_texts(answers.take(n)) is Some,
        answer_texts(answers)->Some_0.len() == answers.len(),
        forall|i: int|
            0 <= i < answers.len() ==> text_at(answers[i], "text"@) == Some(
                #[trigger] answer_texts(answers)->Some_0[i],
            ),
    decreases answers.len(),
{
    if answers.len() > 0 {
        if n == answers.len() {
            assert(answers.take(n) =~= answers);
            lemma_answer_texts(answers.drop_last(), n - 1);
        } else {
            assert(answers.drop_last().take(n) =~= answers.take(n));
            lemma_answer_texts(answers.drop_last(), n);
        }
    } else {
        assert(answers.take(n) =~= answers);
    }
}

proof fn lemma_first_marked(answers: Seq<JsonView>)
    ensures
        first_marked(answers) matches Some(i) ==> 0 <= i < answers.len() && is_marked(answers[i]),
    decreases answers.len(),
{
    if answers.len() > 0 {
        lemma_first_marked(answers.drop_last());
    }
}

/// A question that was read has the answers that it was given, in some order, and
/// the choice that counts as correct is the one that was marked.
pub proof fn law_shuffle_keeps_answer(v: JsonView, entropy: Seq<char>)
    requires
        entropy.len() >= 4,
        question_of(v, entropy) is Ok,
    ensures
        ({
            let q = question_of(v, entropy)->Ok_0;
            let answers = option_field(v, "answers"@)->Some_0->Array_0;
            let ts = answer_texts(answers)->Some_0;
            &&& q.choices.len() == 4
            &&& q.answer_index < 4
            &&& q.choices[q.answer_index as int] == ts[first_marked(answers)->Some_0]
            &&& forall|i: int| 0 <= i < 4 ==> q.choices.contains(#[trigger] ts[i])
        }),
{
    let q = question_of(v, entropy)->Ok_0;
    let answers = option_field(v, "answers"@)->Some_0->Array_0;
    let ts = answer_texts(answers)->Some_0;
    let order = shuffle_order(entropy);
    lemma_first_marked(answers);
    lemma_answer_texts(answers, 4);
    lemma_shuffle_order(entropy, first_marked(answers)->Some_0);
    assert forall|i: int| 0 <= i < 4 implies q.choices.contains(#[trigger] ts[i]) by {
        lemma_shuffle_order(entropy, i);
        assert(q.choices[place_in(order, i)] == ts[i]);
    }
}

fn text_field(v: &Json, field: &str) -> (r: Option<String>)
    ensures
        text_option(r) == text_at(v@, field@),
{
    match get_field(v, field) {
        Some(Json::Str(t)) => Some(t.clone()),
        _ => None,
    }
}

fn swap_places(order: &mut Vec<usize>, i: usize, j: usize)
    requires
        i < old(order).len(),
        j < old(order).len(),
    ensures
        final(order)@.map_values(|x: usize| x as int) == swapped(
            old(order)@.map_values(|x: usize| x as int),
            i as int,
            j as int,
        ),
        final(order).len() == old(order).len(),
{
    let ghost before = order@.map_values(|x: usize| x as int);
    let a: usize = order[i];
    let b: usize = order[j];
    order.set(i, b);
    order.set(j, a);
    proof {
        assert(order@.map_values(|x: usize| x as int) =~= swapped(before, i as int, j as int));
    }
}

fn shuffled_order(entropy: &Vec<char>) -> (r: Vec<usize>)
    requires
        entropy.len() >= 4,
    ensures
        r@.map_values(|x: usize| x as int) == shuffle_order(entropy@),
        r.len() == 4,
        forall|i: int| 0 <= i < 4 ==> #[trigger] r@[i] < 4,
{
    let mut order: Vec<usize> = Vec::new();
    order.push(0);
    order.push(1);
    order.push(2);
    order.push(3);
    proof {
        assert(order@.map_values(|x: usize| x as int) =~= seq![0int, 1, 2, 3]);
    }
    let c3: char = entropy[3];
    let j3: usize = (c3 as u32 % 4) as usize;
    swap_places(&mut order, 3, j3);
    let c2: char = entropy[2];
    let j2: usize = (c2 as u32 % 3) as usize;
    swap_places(&mut order, 2, j2);
    let c1: char = entropy[1];
    let j1: usize = (c1 as u32 % 2) as usize;
    swap_places(&mut order, 1, j1);
    proof {
        lemma_shuffle_order(entropy@, 0);
        let s = order@.map_values(|x: usize| x as int);
        assert forall|i: int| 0 <= i < 4 implies #[trigger] order@[i] < 4 by {
            assert(s[i] == order@[i] as int);
            assert(s[i] < 4);
        }
    }
    order
}

/// A result with a question, read through its views.
pub open spec fn question_result(r: Result<Question, String>) -> Result<QuestionView, Seq<char>> {
    match r {
        Ok(q) => Ok(q@),
        Err(e) => Err(e@),
    }
}

fn read_answers(answers: &Vec<Json>) -> (r: Option<(Vec<String>, Option<usize>)>)
    requires
        answers.len() == 4,
    ensures
        match r {
            Some(p) => answer_texts(values_view(answers@)) == Some(text_views(p.0@))
                && first_marked(values_view(answers@)) == (match p.1 {
                Some(i) => Some(i as int),
                None => None,
            }),
            None => answer_texts(values_view(answers@)) is None,
        },
{
    let ghost all = values_view(answers@);
    let mut choices: Vec<String> = Vec::new();
    let mut correct: Option<usize> = None;
    let mut i: usize = 0;
    proof {
        assert(all.take(0) =~= seq![]);
        assert(text_views(choices@) =~= seq![]);
    }
    while i < answers.len()
        invariant
            i <= answers.len(),
            all == values_view(answers@),
            answer_texts(all.take(i as int)) == Some(text_views(choices@)),
            first_marked(all.take(i as int)) == (match correct {
                Some(k) => Some(k as int),
                None => None,
            }),
        decreases answers.len() - i,
    {
        proof {
            assert(all.take(i + 1).drop_last() =~= all.take(i as int));
            assert(all.take(i + 1).last() == answers@[i as int]@);
        }
        let ghost before = choices@;
        match text_field(&answers[i], "text") {
            Some(t) => {
                choices.push(t);
                proof {
                    assert(text_views(choices@) =~= text_views(before).push(t@));
                }
            },
            None => {
                proof {
                    if answer_texts(all) is Some {
                        lemma_answer_texts(all, i + 1);
                    }
                }
                return None;
            },
        }
        let marked: bool = match get_field(&answers[i], "is_correct") {
            Some(Json::Bool(b)) => *b,
            _ => false,
        };
        if marked && correct.is_none() {
            correct = Some(i);
        }
        i = i + 1;
    }
    proof {
        assert(all.take(all.len() as int) =~= all);
    }
    Some((choices, correct))
}

/// Reads a question, and shuffles its answers by random characters, so that the
/// correct one is not predictably placed.
pub fn parse_question_value(v: &Json, entropy: &str) -> (r: Result<Question, String>)
    requires
        entropy@.len() >= 4,
    ensures
        question_result(r) == question_of(v@, entropy@),
{
    let text: String = match text_field(v, "question") {
        Some(t) => t,
        None => {
            return Err("missing question".to_owned());
        },
    };
    let answers: &Vec<Json> = match get_field(v, "answers") {
        Some(Json::Array(a)) => {
            proof {
                assert(Json::Array(*a)@->Array_0 =~= values_view(a@));
            }
            a
        },
        _ => {
            return Err("missing answers".to_owned());
        },
    };
    if answers.len() != 4 {
        let n: String = decimal_text(answers.len() as u64);
        return Err(joined("expected 4 answers, got ", n.as_str()));
    }
    let (choices, correct): (Vec<String>, Option<usize>) = match read_answers(answers) {
        Some(p) => p,
        None => {
            return Err("missing answer text".to_owned());
        },
    };
    let correct: usize = match correct {
        Some(c) => c,
        None => {
            return Err("no correct answer marked".to_owned());
        },
    };
    let ghost ts = text_views(choices@);
    proof {
        lemma_first_marked(values_view(answers@));
        lemma_answer_texts(values_view(answers@), 4);
        lemma_shuffle_order(entropy@, correct as int);
        assert(ts.len() == choices@.len());
    }
    let chars: Vec<char> = chars_of(entropy);
    let order: Vec<usize> = shuffled_order(&chars);
    let ghost os = order@.map_values(|x: usize| x as int);
    proof {
        assert(os[0] == order@[0] as int);
        assert(os[1] == order@[1] as int);
        assert(os[2] == order@[2] as int);
        assert(os[3] == order@[3] as int);
    }
    let mut shuffled: Vec<String> = Vec::new();
    shuffled.push(choices[order[0]].clone());
    shuffled.push(choices[order[1]].clone());
    shuffled.push(choices[order[2]].clone());
    shuffled.push(choices[order[3]].clone());
    proof {
        assert(text_views(shuffled@) =~= os.map_values(|i: int| ts[i]));
    }
    let answer_index: usize = if order[0] == correct {
        0
    } else if order[1] == correct {
        1
    } else if order[2] == correct {
        2
    } else {
        3
    };
    Ok(Question { text, choices: shuffled, answer_index })
}

/// Reads one question from an answer's text.
pub fn parse_question(content: &str) -> (r: Result<Question, String>)
    ensures
        match json_parsed(unfenced(content@)) {
            Some(v) => exists|entropy: Seq<char>| #[trigger]
                is_safe_text(entropy, 8) && question_result(r) == question_of(v, entropy),
            None => r is Err,
        },
{
    let cleaned: String = strip_fences(content);
    match parse_json(cleaned.as_str()) {
        Ok(v) => {
            let entropy: String = random_text(8);
            let r: Result<Question, String> = parse_question_value(&v, entropy.as_str());
            proof {
                assert(is_safe_text(entropy@, 8));
            }
            r
        },
        Err(e) => Err(e),
    }
}

/// The questions that values hold, shuffled by random characters each, or the
/// error of the first that holds none.
pub open spec fn questions_of(vs: Seq<JsonView>, entropies: Seq<Seq<char>>) -> Result<
    Seq<QuestionView>,
    Seq<char>,
>
    decreases vs.len(),
{
    if vs.len() == 0 {
        Ok(seq![])
    } else {
        match questions_of(vs.drop_last(), entropies) {
            Err(e) => Err(e),
            Ok(qs) => match question_of(vs.last(), entropies[vs.len() - 1]) {
                Ok(q) => Ok(qs.push(q)),
                Err(e) => Err(e),
            },
        }
    }
}

/// The questions that a value with a list of them holds.
pub open spec fn batch_of(v: JsonView, entropies: Seq<Seq<char>>) -> Result<
    Seq<QuestionView>,
    Seq<char>,
> {
    match option_field(v, "questions"@) {
        Some(JsonView::Array(vs)) => if vs.len() == 0 {
            Err("empty questions array"@)
        } else {
            questions_of(vs, entropies)
        },
        _ => Err("missing questions array"@),
    }
}

/// A result with questions, read through its views.
pub open spec fn batch_result(r: Result<Vec<Question>, String>) -> Result<
    Seq<QuestionView>,
    Seq<char>,
> {
    match r {
        Ok(qs) => Ok(question_views(qs@)),
        Err(e) => Err(e@),
    }
}

proof fn lemma_questions_error(vs: Seq<JsonView>, entropies: Seq<Seq<char>>, n: int)
    requires
        0 <= n <= vs.len(),
        questions_of(vs.take(n), entropies) is Err,
    ensures
        questions_of(vs, entropies) == questions_of(vs.take(n), entropies),
    decreases vs.len(),
{
    if n == vs.len() {
        assert(vs.take(n) =~= vs);
    } else {
        assert(vs.drop_last().take(n) =~= vs.take(n));
        lemma_questions_error(vs.drop_last(), entropies, n);
    }
}

/// How many questions a value with a list of them holds.
pub fn batch_size(v: &Json) -> (r: usize)
    ensures
        match option_field(v@, "questions"@) {
            Some(JsonView::Array(vs)) => r == vs.len(),
            _ => r == 0,
        },
{
    match get_field(v, "questions") {
        Some(Json::Array(items)) => items.len(),
        _ => 0,
    }
}

/// Reads the questions of a value with a list of them, each shuffled by its own
/// random characters.
pub fn parse_batch_value(v: &Json, entropies: &Vec<String>) -> (r: Result<Vec<Question>, String>)
    requires
        forall|i: int| 0 <= i < entropies.len() ==> (#[trigger] entropies@[i])@.len() >= 4,
        option_field(v@, "questions"@) matches Some(JsonView::Array(vs)) ==> vs.len()
            <= entropies.len(),
    ensures
        batch_result(r) == batch_of(v@, text_views(entropies@)),
{
    let ghost es = text_views(entropies@);
    match get_field(v, "questions") {
        Some(Json::Array(items)) => {
            let ghost vs = values_view(items@);
            proof {
                assert(Json::Array(*items)@->Array_0 =~= vs);
            }
            if items.len() == 0 {
                return Err("empty questions array".to_owned());
            }
            let mut qs: Vec<Question> = Vec::new();
            let mut i: usize = 0;
            proof {
                assert(vs.take(0) =~= seq![]);
                assert(question_views(qs@) =~= seq![]);
            }
            while i < items.len()
                invariant
                    i <= items.len(),
                    items.len() > 0,
                    vs == values_view(items@),
                    es == text_views(entropies@),
                    items.len() <= entropies.len(),
                    forall|k: int|
                        0 <= k < entropies.len() ==> (#[trigger] entropies@[k])@.len() >= 4,
                    option_field(v@, "questions"@) == Some(JsonView::Array(vs)),
                    questions_of(vs.take(i as int), es) == Ok::<Seq<QuestionView>, Seq<char>>(
                        question_views(qs@),
                    ),
                decreases items.len() - i,
            {
                proof {
                    assert(vs.take(i + 1).drop_last() =~= vs.take(i as int));
                    assert(vs.take(i + 1).last() == items@[i as int]@);
                    assert(es[i as int] == entropies@[i as int]@);
                }
                match parse_question_value(&items[i], entropies[i].as_str()) {
                    Ok(q) => {
                        let ghost before = qs@;
                        qs.push(q);
                        proof {
                            assert(question_views(qs@) =~= question_views(before).push(q@));
                        }
                    },
                    Err(e) => {
                        proof {
                            lemma_questions_error(vs, es, i + 1);
                        }
                        return Err(e);
                    },
                }
                i = i + 1;
            }
            proof {
                assert(vs.take(vs.len() as int) =~= vs);
            }
            Ok(qs)
        },
        _ => Err("missing questions array".to_owned()),
    }
}

/// Random characters for each of several questions.
pub open spec fn are_entropies(es: Seq<Seq<char>>) -> bool {
    forall|i: int| 0 <= i < es.len() ==> is_safe_text(#[trigger] es[i], 8)
}

/// Reads several questions from an answer's text.
pub fn parse_question_batch(content: &str) -> (r: Result<Vec<Question>, String>)
    ensures
        match json_parsed(unfenced(content@)) {
            Some(v) => exists|entropies: Seq<Seq<char>>| #[trigger]
                are_entropies(entropies) && batch_result(r) == batch_of(v, entropies),
            None => r is Err,
        },
{
    let cleaned: String = strip_fences(content);
    match parse_json(cleaned.as_str()) {
        Ok(v) => {
            let n: usize = batch_size(&v);
            let mut entropies: Vec<String> = Vec::new();
            let mut i: usize = 0;
            while i < n
                invariant
                    i <= n,
                    entropies.len() == i,
                    forall|k: int| 0 <= k < i ==> is_safe_text((#[trigger] entropies@[k])@, 8),
                decreases n - i,
            {
                entropies.push(random_text(8));
                i = i + 1;
            }
            let r: Result<Vec<Question>, String> = parse_batch_value(&v, &entropies);
            proof {
                let es = text_views(entropies@);
                assert forall|k: int| 0 <= k < es.len() implies is_safe_text(
                    #[trigger] es[k],
                    8,
                ) by {
                    assert(es[k] == entropies@[k]@);
                }
                assert(are_entropies(es));
            }
            r
        },
        Err(e) => Err(e),
    }
}

// ---------------------------------------------------------------------
// the bank
// ---------------------------------------------------------------------

/// How many questions the bank holds.
pub const BANK_SIZE: usize = 8;

/// A question of the bank; its first choice is the correct one.
pub open spec fn bank_question(i: int) -> QuestionView {
    let (text, a, b, c, d) = if i == 0 {
        ("Hangisi bir programlama dilidir?"@, "Python"@, "HTML"@, "CSS"@, "SQL"@)
    } else if i == 1 {
        (
            "Dünyanın en kalabalık ülkesi hangisidir?"@,
            "Hindistan"@,
            "Çin"@,
            "ABD"@,
            "Endonezya"@,
        )
    } else if i == 2 {
        (
            "Işık hızı yaklaşık kaç km/s'dir?"@,
            "300.000"@,
            "150.000"@,
            "1.000"@,
            "30.000"@,
        )
    } else if i == 3 {
        ("Hangisi bir asal sayıdır?"@, "97"@, "91"@, "87"@, "93"@)
    } else if i == 4 {
        (
            "Fotosentezde hangi gaz üretilir?"@,
            "Oksijen"@,
            "Karbondioksit"@,
            "Azot"@,
            "Hidrojen"@,
        )
    } else if i == 5 {
        ("İstanbul hangi yılda fethedilmiştir?"@, "1453"@, "1451"@, "1461"@, "1444"@)
    } else if i == 6 {
        ("Hangisi en büyük gezegen?"@, "Jüpiter"@, "Satürn"@, "Neptün"@, "Mars"@)
    } else {
        (
            "DNA'nın açılımı nedir?"@,
            "Deoksiribonükleik asit"@,
            "Ribonükleik asit"@,
            "Amino asit"@,
            "Folik asit"@,
        )
    };
    QuestionView { text, choices: seq![a, b, c, d], answer_index: 0 }
}

fn make_question(text: &str, a: &str, b: &str, c: &str, d: &str) -> (r: Question)
    ensures
        r@ == (QuestionView { text: text@, choices: seq![a@, b@, c@, d@], answer_index: 0 }),
{
    let mut choices: Vec<String> = Vec::new();
    choices.push(a.to_owned());
    choices.push(b.to_owned());
    choices.push(c.to_owned());
    choices.push(d.to_owned());
    proof {
        assert(text_views(choices@) =~= seq![a@, b@, c@, d@]);
    }
    Question { text: text.to_owned(), choices, answer_index: 0 }
}

/// A question of the bank, so that the game works without an answer.
pub fn mock_question(seed: usize) -> (r: Question)
    ensures
        r@ == bank_question(seed as int % BANK_SIZE as int),
{
    let i: usize = seed % BANK_SIZE;
    if i == 0 {
        make_question("Hangisi bir programlama dilidir?", "Python", "HTML", "CSS", "SQL")
    } else if i == 1 {
        make_question(
            "Dünyanın en kalabalık ülkesi hangisidir?",
            "Hindistan",
            "Çin",
            "ABD",
            "Endonezya",
        )
    } else if i == 2 {
        make_question(
            "Işık hızı yaklaşık kaç km/s'dir?",
            "300.000",
            "150.000",
            "1.000",
            "30.000",
        )
    } else if i == 3 {
        make_question("Hangisi bir asal sayıdır?", "97", "91", "87", "93")
    } else if i == 4 {
        make_question(
            "Fotosentezde hangi gaz üretilir?",
            "Oksijen",
            "Karbondioksit",
            "Azot",
            "Hidrojen",
        )
    } else if i == 5 {
        make_question("İstanbul hangi yılda fethedilmiştir?", "1453", "1451", "1461", "1444")
    } else if i == 6 {
        make_question("Hangisi en büyük gezegen?", "Jüpiter", "Satürn", "Neptün", "Mars")
    } else {
        make_question(
            "DNA'nın açılımı nedir?",
            "Deoksiribonükleik asit",
            "Ribonükleik asit",
            "Amino asit",
            "Folik asit",
        )
    }
}

/// A question with this text is among them.
pub open spec fn has_text(qs: Seq<QuestionView>, text: Seq<char>) -> bool {
    exists|i: int| 0 <= i < qs.len() && (#[trigger] qs[i]).text == text
}

/// Questions topped up from the bank, as far as there are too few: first with the
/// bank's questions, from the `seed`-th on, that are not among them, and when the
/// bank is used up with its questions over again.
pub open spec fn topped_up(qs: Seq<QuestionView>, count: nat, seed: nat) -> Seq<QuestionView>
    decreases count - qs.len(), BANK_SIZE - seed,
{
    if qs.len() >= count {
        qs
    } else {
        let q = bank_question((seed % BANK_SIZE as nat) as int);
        if seed < BANK_SIZE && has_text(qs, q.text) {
            topped_up(qs, count, seed + 1)
        } else {
            topped_up(qs.push(q), count, seed + 1)
        }
    }
}

fn contains_text(qs: &Vec<Question>, text: &str) -> (r: bool)
    ensures
        r == has_text(question_views(qs@), text@),
{
    let ghost all = question_views(qs@);
    let mut i: usize = 0;
    while i < qs.len()
        invariant
            i <= qs.len(),
            all == question_views(qs@),
            forall|k: int| 0 <= k < i ==> (#[trigger] all[k]).text != text@,
        decreases qs.len() - i,
    {
        proof {
            assert(all[i as int] == qs@[i as int]@);
        }
        if same_text(qs[i].text.as_str(), text) {
            return true;
        }
        i = i + 1;
    }
    false
}

proof fn lemma_topped_up_len(qs: Seq<QuestionView>, count: nat, seed: nat)
    ensures
        topped_up(qs, count, seed).len() == if qs.len() >= count {
            qs.len()
        } else {
            count
        },
        topped_up(qs, count, seed).take(qs.len() as int) == qs,
    decreases count - qs.len(), BANK_SIZE - seed,
{
    if qs.len() >= count {
        assert(qs.take(qs.len() as int) =~= qs);
    } else {
        let q = bank_question((seed % BANK_SIZE as nat) as int);
        if seed < BANK_SIZE && has_text(qs, q.text) {
            lemma_topped_up_len(qs, count, seed + 1);
        } else {
            lemma_topped_up_len(qs.push(q), count, seed + 1);
            let all = topped_up(qs.push(q), count, seed + 1);
            assert(all.take(qs.len() as int) =~= all.take(qs.len() as int + 1).take(qs.len() as int));
            assert(qs.push(q).take(qs.len() as int) =~= qs);
        }
    }
}

/// The questions of a game: as many as are asked for, never fewer.
pub open spec fn full_batch(qs: Seq<QuestionView>, count: nat) -> Seq<QuestionView> {
    topped_up(qs, count, 0).take(count as int)
}

/// A game always has exactly as many questions as it asks for, and those that were
/// generated come first.
pub proof fn law_batch_is_complete(qs: Seq<QuestionView>, count: nat)
    ensures
        full_batch(qs, count).len() == count,
        forall|i: int|
            0 <= i < count && i < qs.len() ==> #[trigger] full_batch(qs, count)[i] == qs[i],
{
    lemma_topped_up_len(qs, count, 0);
    let all = topped_up(qs, count, 0);
    assert forall|i: int| 0 <= i < count && i < qs.len() implies #[trigger] full_batch(
        qs,
        count,
    )[i] == qs[i] by {
        assert(all.take(qs.len() as int)[i] == qs[i]);
    }
}

/// Completes generated questions, of which there are none where generating them
/// failed, to as many as a game needs.
pub fn complete_batch(generated: Vec<Question>, count: u32) -> (r: Vec<Question>)
    ensures
        question_views(r@) == full_batch(question_views(generated@), count as nat),
{
    let mut qs: Vec<Question> = generated;
    let ghost start = question_views(generated@);
    let ghost goal = topped_up(start, count as nat, 0);
    let mut seed: usize = 0;
    let ghost mut n: nat = 0;
    while qs.len() < count as usize
        invariant
            topped_up(question_views(qs@), count as nat, n) == goal,
            seed < 2 * BANK_SIZE,
            n < BANK_SIZE ==> seed == n,
            n >= BANK_SIZE ==> seed >= BANK_SIZE && seed as int % BANK_SIZE as int == n
                % BANK_SIZE as nat,
        decreases count as usize - qs.len(), BANK_SIZE - n,
    {
        let q: Question = mock_question(seed);
        let known: bool = seed < BANK_SIZE && contains_text(&qs, q.text.as_str());
        let ghost before = qs@;
        if !known {
            let ghost qv = q@;
            qs.push(q);
            proof {
                assert(question_views(qs@) =~= question_views(before).push(qv));
            }
        }
        proof {
            n = n + 1;
        }
        seed = if seed + 1 < 2 * BANK_SIZE {
            seed + 1
        } else {
            BANK_SIZE
        };
    }
    proof {
        lemma_topped_up_len(start, count as nat, 0);
        assert(question_views(qs@).len() == qs@.len());
        assert(goal == question_views(qs@));
    }
    let mut r: Vec<Question> = Vec::new();
    let mut i: usize = 0;
    while i < count as usize
        invariant
            i <= count,
            qs.len() >= count,
            goal == question_views(qs@),
            r.len() == i,
            forall|k: int| 0 <= k < i ==> (#[trigger] r@[k])@ == goal[k],
        decreases count as usize - i,
    {
        r.push(qs[i].copy());
        i = i + 1;
    }
    proof {
        assert(question_views(r@) =~= goal.take(count as int));
    }
    r
}

// ---------------------------------------------------------------------
// what was asked
// ---------------------------------------------------------------------

/// The last so many of a sequence.
pub open spec fn last_of<A>(s: Seq<A>, n: int) -> Seq<A> {
    if s.len() <= n {
        s
    } else {
        s.skip(s.len() - n)
    }
}

/// The texts of the questions that were asked last, in all rooms.
pub struct RecentQuestions {
    recent: Vec<String>,
}

impl RecentQuestions {
    /// The texts, the oldest first.
    pub closed spec fn texts(self) -> Seq<Seq<char>> {
        text_views(self.recent@)
    }

    pub fn new() -> (r: Self)
        ensures
            r.texts() == Seq::<Seq<char>>::empty(),
    {
        let r = RecentQuestions { recent: Vec::new() };
        proof {
            assert(r.texts() =~= Seq::<Seq<char>>::empty());
        }
        r
    }

    /// The texts, the oldest first.
    pub fn recent_questions(&self) -> (r: Vec<String>)
        ensures
            text_views(r@) == self.texts(),
    {
        copy_texts(&self.recent)
    }

    /// Remembers texts; of all of them, the last ones are kept.
    pub fn record_asked(&mut self, texts: &Vec<String>)
        ensures
            final(self).texts() == last_of(
                old(self).texts() + text_views(texts@),
                RECENT_LIMIT as int,
            ),
    {
        let ghost before = self.texts();
        let mut more: Vec<String> = copy_texts(texts);
        let ghost added = text_views(more@);
        let mut all: Vec<String> = copy_texts(&self.recent);
        let ghost first = text_views(all@);
        all.append(&mut more);
        let ghost every = text_views(all@);
        proof {
            assert(every =~= before + text_views(texts@));
        }
        let from: usize = if all.len() <= RECENT_LIMIT {
            0
        } else {
            all.len() - RECENT_LIMIT
        };
        let mut kept: Vec<String> = Vec::new();
        let mut i: usize = from;
        while i < all.len()
            invariant
                from <= i <= all.len(),
                every == text_views(all@),
                kept.len() == i - from,
                forall|k: int| 0 <= k < kept.len() ==> (#[trigger] kept@[k])@ == every[from + k],
            decreases all.len() - i,
        {
            kept.push(all[i].clone());
            i = i + 1;
        }
        self.recent = kept;
        proof {
            assert(self.texts() =~= last_of(every, RECENT_LIMIT as int));
        }
    }
}

/// The last so many of a sequence, the last one first.
pub open spec fn latest<A>(s: Seq<A>, n: nat) -> Seq<A>
    decreases n,
{
    if n == 0 || s.len() == 0 {
        seq![]
    } else {
        seq![s.last()] + latest(s.drop_last(), (n - 1) as nat)
    }
}

/// Texts with a separator between them.
pub open spec fn separated(ts: Seq<Seq<char>>, sep: Seq<char>) -> Seq<char>
    decreases ts.len(),
{
    if ts.len() == 0 {
        seq![]
    } else if ts.len() == 1 {
        ts[0]
    } else {
        ts[0] + sep + separated(ts.drop_first(), sep)
    }
}

/// The request for a game's questions.
pub open spec fn batch_prompt_text(
    difficulty: Seq<char>,
    category: Seq<char>,
    count: u32,
    previous: Seq<Seq<char>>,
) -> Seq<char> {
    let ask = "Kategori: "@ + category + "\nZorluk Seviyesi: "@ + difficulty + "\nAdet: "@
        + decimal(count as nat);
    if previous.len() == 0 {
        ask
    } else {
        ask + "\nDaha önce sorulan sorular (BUNLARI VE ÇOK BENZERLERİNİ TEKRARLAMA): "@
            + separated(latest(previous, RECENT_NAMED as nat), " | "@)
    }
}

fn join_latest(previous: &Vec<String>, n: usize) -> (r: String)
    ensures
        r@ == separated(latest(text_views(previous@), n as nat), " | "@),
{
    proof {
        assert(text_views(previous@).take(previous@.len() as int) =~= text_views(previous@));
    }
    join_latest_from(previous, previous.len(), n)
}

fn join_latest_from(previous: &Vec<String>, end: usize, n: usize) -> (r: String)
    requires
        end <= previous.len(),
    ensures
        r@ == separated(latest(text_views(previous@).take(end as int), n as nat), " | "@),
    decreases n,
{
    let ghost s = text_views(previous@).take(end as int);
    if n == 0 || end == 0 {
        proof {
            assert(latest(s, n as nat) =~= seq![]);
        }
        return String::new();
    }
    proof {
        assert(s.last() == previous@[end - 1]@);
        assert(s.drop_last() =~= text_views(previous@).take(end - 1));
        let rest = latest(s.drop_last(), (n - 1) as nat);
        let all = latest(s, n as nat);
        assert(all[0] == s.last());
        assert(all.drop_first() =~= rest);
        if n == 1 || end == 1 {
            assert(rest =~= seq![]);
        } else {
            assert(rest.len() > 0);
        }
    }
    if n == 1 || end == 1 {
        return previous[end - 1].clone();
    }
    let mut r: String = joined(previous[end - 1].as_str(), " | ");
    let more: String = join_latest_from(previous, end - 1, n - 1);
    r.append(more.as_str());
    r
}

/// The request for a game's questions: all of them at once, so that they differ,
/// and with those that were asked lately, so that they are not asked again.
pub fn batch_prompt(difficulty: &str, category: &str, count: u32, previous: &Vec<String>) -> (r: String)
    ensures
        r@ == batch_prompt_text(difficulty@, category@, count, text_views(previous@)),
{
    let mut r: String = joined("Kategori: ", category);
    r.append("\nZorluk Seviyesi: ");
    r.append(difficulty);
    r.append("\nAdet: ");
    let n: String = decimal_text(count as u64);
    r.append(n.as_str());
    if previous.len() > 0 {
        r.append("\nDaha önce sorulan sorular (BUNLARI VE ÇOK BENZERLERİNİ TEKRARLAMA): ");
        let names: String = join_latest(previous, RECENT_NAMED);
        r.append(names.as_str());
        proof {
            assert(r@ =~= batch_prompt_text(difficulty@, category@, count, text_views(previous@)));
        }
    }
    r
}

/// The request for one question.
pub open spec fn question_prompt_text(
    difficulty: Seq<char>,
    category: Seq<char>,
    previous: Seq<Seq<char>>,
) -> Seq<char> {
    let ask = "Kategori: "@ + category + "\nZorluk Seviyesi: "@ + difficulty;
    if previous.len() == 0 {
        ask
    } else {
        ask + "\nDaha önce sorulan sorular (BUNLARI TEKRARLAMA): "@ + separated(
            latest(previous, 6),
            " | "@,
        )
    }
}

/// The request for one question, with those that were asked lately, so that they
/// are not asked again.
pub fn question_prompt(difficulty: &str, category: &str, previous: &Vec<String>) -> (r: String)
    ensures
        r@ == question_prompt_text(difficulty@, category@, text_views(previous@)),
{
    let mut r: String = joined("Kategori: ", category);
    r.append("\nZorluk Seviyesi: ");
    r.append(difficulty);
    if previous.len() > 0 {
        r.append("\nDaha önce sorulan sorular (BUNLARI TEKRARLAMA): ");
        let names: String = join_latest(previous, 6);
        r.append(names.as_str());
        proof {
            assert(r@ =~= question_prompt_text(difficulty@, category@, text_views(previous@)));
        }
    }
    r
}

}
