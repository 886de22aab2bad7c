//! Synchronized room state: everything here is visible to clients. The correct
//! answer is not here until the reveal phase.

use crate::json::{entries_view, put_field, values_view, Json, JsonView};
use crate::query::text_option;
use crate::table::{table_get, Table};
use crate::text::{same_text, text_views};
use crate::utils::now_wallclock_ms;
use vstd::prelude::*;

verus! {

pub const TOTAL_ROUNDS: u32 = 10;

pub const ROUND_TIME_MS: u64 = 20000;

pub const REVEAL_BREAK_MS: u64 = 5000;

pub const MAX_PLAYERS: usize = 4;

pub const MAX_SPECTATORS: usize = 10;

/// What a correct answer is worth.
pub open spec fn points_of(difficulty: Seq<char>) -> i64 {
    if difficulty == "easy"@ {
        10
    } else if difficulty == "medium"@ {
        20
    } else if difficulty == "hard"@ {
        30
    } else {
        10
    }
}

/// What a correct answer is worth.
pub fn points_for(difficulty: &str) -> (r: i64)
    ensures
        r == points_of(difficulty@),
        10 <= r <= 30,
{
    if same_text(difficulty, "easy") {
        10
    } else if same_text(difficulty, "medium") {
        20
    } else if same_text(difficulty, "hard") {
        30
    } else {
        10
    }
}

/// Current wall-clock time in milliseconds since the Unix epoch.
pub fn now_millis() -> (r: u64) {
    now_wallclock_ms()
}

/// A player.
#[derive(Debug)]
pub struct PlayerState {
    pub user_id: String,
    pub name: String,
    pub ready: bool,
    pub score: i64,
    pub correct_count: u32,
    pub answered: bool,
    /// Revealed at round end (what they picked).
    pub choice: Option<usize>,
}

/// What a player stands for.
pub struct PlayerView {
    pub user_id: Seq<char>,
    pub name: Seq<char>,
    pub ready: bool,
    pub score: i64,
    pub correct_count: u32,
    pub answered: bool,
    pub choice: Option<usize>,
}

impl View for PlayerState {
    type V = PlayerView;

    open spec fn view(&self) -> PlayerView {
        PlayerView {
            user_id: self.user_id@,
            name: self.name@,
            ready: self.ready,
            score: self.score,
            correct_count: self.correct_count,
            answered: self.answered,
            choice: self.choice,
        }
    }
}

/// A player who has done nothing yet.
pub open spec fn new_player(user_id: Seq<char>, name: Seq<char>) -> PlayerView {
    PlayerView {
        user_id,
        name,
        ready: false,
        score: 0,
        correct_count: 0,
        answered: false,
        choice: None,
    }
}

impl PlayerState {
    pub fn new(user_id: String, name: String) -> (r: Self)
        ensures
            r@ == new_player(user_id@, name@),
    {
        PlayerState {
            user_id,
            name,
            ready: false,
            score: 0,
            correct_count: 0,
            answered: false,
            choice: None,
        }
    }

    /// A player that stands for the same as this one.
    pub fn copy(&self) -> (r: Self)
        ensures
            r@ == self@,
    {
        PlayerState {
            user_id: self.user_id.clone(),
            name: self.name.clone(),
            ready: self.ready,
            score: self.score,
            correct_count: self.correct_count,
            answered: self.answered,
            choice: self.choice,
        }
    }
}

/// A spectator.
#[derive(Debug)]
pub struct SpectatorState {
    pub name: String,
}

impl View for SpectatorState {
    type V = Seq<char>;

    open spec fn view(&self) -> Seq<char> {
        self.name@
    }
}

/// A question without its answer.
#[derive(Debug)]
pub struct QuestionPublic {
    pub text: String,
    pub choices: Vec<String>,
}

/// What a question without its answer stands for.
pub struct PublicView {
    pub text: Seq<char>,
    pub choices: Seq<Seq<char>>,
}

impl View for QuestionPublic {
    type V = PublicView;

    open spec fn view(&self) -> PublicView {
        PublicView { text: self.text@, choices: text_views(self.choices@) }
    }
}

/// The state of a trivia room. Its phases are "lobby", "generating", "question",
/// "reveal" and "finished".
pub struct TriviaState {
    pub difficulty: String,
    pub category: String,
    pub phase: String,
    pub round: u32,
    pub total_rounds: u32,
    pub owner: Option<String>,
    pub players: Table<PlayerState>,
    pub spectators: Table<SpectatorState>,
    pub question: Option<QuestionPublic>,
    /// Only set during "reveal".
    pub correct_index: Option<usize>,
    /// Wall-clock deadline for the current phase.
    pub phase_ends_at: Option<u64>,
    pub answers_in: u32,
    pub winners: Vec<String>,
    /// Whether the room requires a password (the password itself is never
    /// exposed).
    pub has_password: bool,
}

/// What the state of a trivia room stands for.
pub struct StateView {
    pub difficulty: Seq<char>,
    pub category: Seq<char>,
    pub phase: Seq<char>,
    pub round: u32,
    pub total_rounds: u32,
    pub owner: Option<Seq<char>>,
    pub players: Seq<(Seq<char>, PlayerView)>,
    pub spectators: Seq<(Seq<char>, Seq<char>)>,
    pub question: Option<PublicView>,
    pub correct_index: Option<usize>,
    pub phase_ends_at: Option<u64>,
    pub answers_in: u32,
    pub winners: Seq<Seq<char>>,
    pub has_password: bool,
}

impl View for TriviaState {
    type V = StateView;

    open spec fn view(&self) -> StateView {
        StateView {
            difficulty: self.difficulty@,
            category: self.category@,
            phase: self.phase@,
            round: self.round,
            total_rounds: self.total_rounds,
            owner: text_option(self.owner),
            players: self.players@,
            spectators: self.spectators@,
            question: match self.question {
                Some(q) => Some(q@),
                None => None,
            },
            correct_index: self.correct_index,
            phase_ends_at: self.phase_ends_at,
            answers_in: self.answers_in,
            winners: text_views(self.winners@),
            has_password: self.has_password,
        }
    }
}

/// The state of a new room.
pub open spec fn new_state(difficulty: Seq<char>, category: Seq<char>) -> StateView {
    StateView {
        difficulty,
        category,
        phase: "lobby"@,
        round: 0,
        total_rounds: TOTAL_ROUNDS,
        owner: None,
        players: seq![],
        spectators: seq![],
        question: None,
        correct_index: None,
        phase_ends_at: None,
        answers_in: 0,
        winners: seq![],
        has_password: false,
    }
}

/// The name of somebody in the room.
pub open spec fn name_of(s: StateView, session_id: Seq<char>) -> Option<Seq<char>> {
    match table_get(s.players, session_id) {
        Some(p) => Some(p.name),
        None => table_get(s.spectators, session_id),
    }
}

pub open spec fn number_or_null(n: Option<usize>) -> JsonView {
    match n {
        Some(n) => JsonView::Int(n as int),
        None => JsonView::Null,
    }
}

/// A player as clients see them.
pub open spec fn player_json(p: PlayerView) -> JsonView {
    JsonView::Object(
        Map::<Seq<char>, JsonView>::empty().insert("userId"@, JsonView::Str(p.user_id)).insert(
            "name"@,
            JsonView::Str(p.name),
        ).insert("ready"@, JsonView::Bool(p.ready)).insert(
            "score"@,
            JsonView::Int(p.score as int),
        ).insert("correctCount"@, JsonView::Int(p.correct_count as int)).insert(
            "answered"@,
            JsonView::Bool(p.answered),
        ).insert("choice"@, number_or_null(p.choice)),
    )
}

/// The players as clients see them, by session id.
pub open spec fn players_json(ps: Seq<(Seq<char>, PlayerView)>) -> Map<Seq<char>, JsonView>
    decreases ps.len(),
{
    if ps.len() == 0 {
        Map::empty()
    } else {
        players_json(ps.drop_last()).insert(ps.last().0, player_json(ps.last().1))
    }
}

/// The spectators as clients see them, by session id.
pub open spec fn spectators_json(ss: Seq<(Seq<char>, Seq<char>)>) -> Map<Seq<char>, JsonView>
    decreases ss.len(),
{
    if ss.len() == 0 {
        Map::empty()
    } else {
        spectators_json(ss.drop_last()).insert(
            ss.last().0,
            JsonView::Object(
                Map::<Seq<char>, JsonView>::empty().insert("name"@, JsonView::Str(ss.last().1)),
            ),
        )
    }
}

/// Texts as JSON.
pub open spec fn texts_json(ts: Seq<Seq<char>>) -> JsonView {
    JsonView::Array(ts.map_values(|t: Seq<char>| JsonView::Str(t)))
}

/// A question as clients see it.
pub open spec fn question_json(q: Option<PublicView>) -> JsonView {
    match q {
        Some(q) => JsonView::Object(
            Map::<Seq<char>, JsonView>::empty().insert("text"@, JsonView::Str(q.text)).insert(
                "choices"@,
                texts_json(q.choices),
            ),
        ),
        None => JsonView::Null,
    }
}

/// The state as clients see it.
pub open spec fn state_json(s: StateView) -> JsonView {
    JsonView::Object(
        Map::<Seq<char>, JsonView>::empty().insert("difficulty"@, JsonView::Str(s.difficulty)).insert(
            "category"@,
            JsonView::Str(s.category),
        ).insert("phase"@, JsonView::Str(s.phase)).insert("round"@, JsonView::Int(s.round as int)).insert(
            "totalRounds"@,
            JsonView::Int(s.total_rounds as int),
        ).insert(
            "owner"@,
            match s.owner {
                Some(o) => JsonView::Str(o),
                None => JsonView::Null,
            },
        ).insert("players"@, JsonView::Object(players_json(s.players))).insert(
            "spectators"@,
            JsonView::Object(spectators_json(s.spectators)),
        ).insert("question"@, question_json(s.question)).insert(
            "correctIndex"@,
            number_or_null(s.correct_index),
        ).insert(
            "phaseEndsAt"@,
            match s.phase_ends_at {
                Some(t) => JsonView::Int(t as int),
                None => JsonView::Null,
            },
        ).insert("answersIn"@, JsonView::Int(s.answers_in as int)).insert(
            "winners"@,
            texts_json(s.winners),
        ).insert("hasPassword"@, JsonView::Bool(s.has_password)),
    )
}

/// The room's metadata, for its listing.
pub open spec fn meta_json(s: StateView) -> JsonView {
    JsonView::Object(
        Map::<Seq<char>, JsonView>::empty().insert("phase"@, JsonView::Str(s.phase)).insert(
            "round"@,
            JsonView::Int(s.round as int),
        ).insert("players"@, JsonView::Int(s.players.len() as int)).insert(
            "spectators"@,
            JsonView::Int(s.spectators.len() as int),
        ).insert("hasPassword"@, JsonView::Bool(s.has_password)),
    )
}

pub(crate) fn opt_number(n: Option<usize>) -> (r: Json)
    ensures
        r@ == number_or_null(n),
{
    match n {
        Some(n) => Json::Uint(n as u64),
        None => Json::Null,
    }
}

pub(crate) fn list_json(ts: &Vec<String>) -> (r: Json)
    ensures
        r@ == texts_json(text_views(ts@)),
{
    let mut items: Vec<Json> = Vec::new();
    let mut i: usize = 0;
    while i < ts.len()
        invariant
            i <= ts.len(),
            items.len() == i,
            forall|k: int| 0 <= k < i ==> (#[trigger] items@[k])@ == JsonView::Str(ts@[k]@),
        decreases ts.len() - i,
    {
        items.push(Json::Str(ts[i].clone()));
        i = i + 1;
    }
    proof {
        assert(values_view(items@) =~= text_views(ts@).map_values(
            |t: Seq<char>| JsonView::Str(t),
        ));
    }
    Json::array(items)
}

impl PlayerState {
    fn to_json(&self) -> (r: Json)
        ensures
            r@ == player_json(self@),
    {
        let mut es: Vec<(String, Json)> = Vec::new();
        put_field(&mut es, "userId", Json::Str(self.user_id.clone()));
        put_field(&mut es, "name", Json::Str(self.name.clone()));
        put_field(&mut es, "ready", Json::Bool(self.ready));
        put_field(&mut es, "score", Json::Int(self.score));
        put_field(&mut es, "correctCount", Json::Uint(self.correct_count as u64));
        put_field(&mut es, "answered", Json::Bool(self.answered));
        put_field(&mut es, "choice", opt_number(self.choice));
        Json::Object(es)
    }
}

impl TriviaState {
    pub fn new(difficulty: &str, category: &str) -> (r: Self)
        ensures
            r@ == new_state(difficulty@, category@),
    {
        let r = TriviaState {
            difficulty: difficulty.to_owned(),
            category: category.to_owned(),
            phase: "lobby".to_owned(),
            round: 0,
            total_rounds: TOTAL_ROUNDS,
            owner: None,
            players: Table::new(),
            spectators: Table::new(),
            question: None,
            correct_index: None,
            phase_ends_at: None,
            answers_in: 0,
            winners: Vec::new(),
            has_password: false,
        };
        proof {
            assert(r@.winners =~= seq![]);
        }
        r
    }

    /// The name of somebody in the room.
    pub fn display_name(&self, session_id: &str) -> (r: Option<String>)
        ensures
            text_option(r) == name_of(self@, session_id@),
    {
        match self.players.get(session_id) {
            Some(p) => Some(p.name.clone()),
            None => match self.spectators.get(session_id) {
                Some(s) => Some(s.name.clone()),
                None => None,
            },
        }
    }

    /// The room's metadata, for its listing.
    pub fn metadata(&self) -> (r: Json)
        ensures
            r@ == meta_json(self@),
    {
        let mut es: Vec<(String, Json)> = Vec::new();
        put_field(&mut es, "phase", Json::Str(self.phase.clone()));
        put_field(&mut es, "round", Json::Uint(self.round as u64));
        put_field(&mut es, "players", Json::Uint(self.players.len() as u64));
        put_field(&mut es, "spectators", Json::Uint(self.spectators.len() as u64));
        put_field(&mut es, "hasPassword", Json::Bool(self.has_password));
        Json::Object(es)
    }

    fn players_object(&self) -> (r: Vec<(String, Json)>)
        ensures
            entries_view(r@) == players_json(self@.players),
    {
        let ghost all = self@.players;
        let mut es: Vec<(String, Json)> = Vec::new();
        let mut i: usize = 0;
        proof {
            assert(all.take(0) =~= seq![]);
        }
        while i < self.players.entries.len()
            invariant
                i <= self.players.entries.len(),
                all == self@.players,
                entries_view(es@) == players_json(all.take(i as int)),
            decreases self.players.entries.len() - i,
        {
            let e: &(String, PlayerState) = &self.players.entries[i];
            proof {
                assert(all.take(i + 1).drop_last() =~= all.take(i as int));
                assert(all[i as int] == (e.0@, e.1@));
            }
            put_field(&mut es, e.0.as_str(), e.1.to_json());
            i = i + 1;
        }
        proof {
            assert(all.take(all.len() as int) =~= all);
        }
        es
    }

    fn spectators_object(&self) -> (r: Vec<(String, Json)>)
        ensures
            entries_view(r@) == spectators_json(self@.spectators),
    {
        let ghost all = self@.spectators;
        let mut es: Vec<(String, Json)> = Vec::new();
        let mut i: usize = 0;
        proof {
            assert(all.take(0) =~= seq![]);
        }
        while i < self.spectators.entries.len()
            invariant
                i <= self.spectators.entries.len(),
                all == self@.spectators,
                entries_view(es@) == spectators_json(all.take(i as int)),
            decreases self.spectators.entries.len() - i,
        {
            let e: &(String, SpectatorState) = &self.spectators.entries[i];
            proof {
                assert(all.take(i + 1).drop_last() =~= all.take(i as int));
                assert(all[i as int] == (e.0@, e.1@));
            }
            let mut inner: Vec<(String, Json)> = Vec::new();
            put_field(&mut inner, "name", Json::Str(e.1.name.clone()));
            put_field(&mut es, e.0.as_str(), Json::Object(inner));
            i = i + 1;
        }
        proof {
            assert(all.take(all.len() as int) =~= all);
        }
        es
    }

    /// The state as clients see it.
    pub fn to_json(&self) -> (r: Json)
        ensures
            r@ == state_json(self@),
    {
        let owner: Json = match &self.owner {
            Some(o) => Json::Str(o.clone()),
            None => Json::Null,
        };
        let question: Json = match &self.question {
            Some(q) => {
                let mut es: Vec<(String, Json)> = Vec::new();
                put_field(&mut es, "text", Json::Str(q.text.clone()));
                put_field(&mut es, "choices", list_json(&q.choices));
                Json::Object(es)
            },
            None => Json::Null,
        };
        let ends: Json = match self.phase_ends_at {
            Some(t) => Json::Uint(t),
            None => Json::Null,
        };
        let mut es: Vec<(String, Json)> = Vec::new();
        put_field(&mut es, "difficulty", Json::Str(self.difficulty.clone()));
        put_field(&mut es, "category", Json::Str(self.category.clone()));
        put_field(&mut es, "phase", Json::Str(self.phase.clone()));
        put_field(&mut es, "round", Json::Uint(self.round as u64));
        put_field(&mut es, "totalRounds", Json::Uint(self.total_rounds as u64));
        put_field(&mut es, "owner", owner);
        put_field(&mut es, "players", Json::Object(self.players_object()));
        put_field(&mut es, "spectators", Json::Object(self.spectators_object()));
        put_field(&mut es, "question", question);
        put_field(&mut es, "correctIndex", opt_number(self.correct_index));
        put_field(&mut es, "phaseEndsAt", ends);
        put_field(&mut es, "answersIn", Json::Uint(self.answers_in as u64));
        put_field(&mut es, "winners", list_json(&self.winners));
        put_field(&mut es, "hasPassword", Json::Bool(self.has_password));
        Json::Object(es)
    }
}

}
