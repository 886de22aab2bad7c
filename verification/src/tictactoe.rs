//! Tic-tac-toe with chat: two players per room, X and O.

use crate::client::{told_to_leave, Client, ClientView};
use crate::context::{broadcasted, find_client};
use crate::error::{codes, ErrorView, ServerError};
use crate::handler::{get_field, option_field};
use crate::json::{entries_view, put_field, values_view, Json, JsonView};
use crate::protocol::{MessageType, TypeView};
use crate::query::{is_blank, option_view, text_option};
use crate::room::{
    client_index, client_views, forgotten, session_allowed, synced, ContextView, RoomContext,
};
use crate::routes::{with_text, RoutesView};
use crate::table::{lemma_table_remove, lemma_table_set, table_get, table_remove, table_set, Table};
use crate::text::{chars_of, joined, same_text, slice_text, text_views};
use vstd::prelude::*;
use vstd::string::*;

verus! {

/// How long a player may stay away, in milliseconds.
pub const RECONNECT_MS: u64 = 60000;

/// The longest chat message, in characters.
pub const CHAT_MAX: usize = 500;

// ---------------------------------------------------------------------
// auth
// ---------------------------------------------------------------------

/// What a valid token says of its bearer.
#[derive(Debug)]
pub struct Claims {
    /// User id.
    pub sub: String,
    /// Display name.
    pub name: String,
}

/// The auth data of a user.
pub open spec fn user_json(user_id: Seq<char>, name: Seq<char>) -> JsonView {
    JsonView::Object(
        Map::<Seq<char>, JsonView>::empty().insert("userId"@, JsonView::Str(user_id)).insert(
            "name"@,
            JsonView::Str(name),
        ),
    )
}

pub open spec fn auth_error(message: Seq<char>) -> ErrorView {
    ErrorView { code: codes::AUTH_FAILED, message }
}

/// The auth data of a request that bears a token or not, and whose token says this if
/// it is valid.
pub open spec fn authenticated(has_token: bool, claims: Option<Claims>) -> Result<
    JsonView,
    ErrorView,
> {
    if !has_token {
        Err(auth_error("missing bearer token"@))
    } else {
        match claims {
            Some(c) => Ok(user_json(c.sub@, c.name@)),
            None => Err(auth_error("invalid or expired token"@)),
        }
    }
}

/// Auth data or an error, read through its views.
pub open spec fn auth_result(r: Result<Json, ServerError>) -> Result<JsonView, ErrorView> {
    match r {
        Ok(j) => Ok(j@),
        Err(e) => Err(e@),
    }
}

/// The auth data of a request, given whether it bears a token and what the token
/// says if it is valid.
pub fn authenticate(token: Option<&str>, claims: Option<Claims>) -> (r: Result<Json, ServerError>)
    ensures
        auth_result(r) == authenticated(token is Some, claims),
{
    if token.is_none() {
        return Err(ServerError::new(codes::AUTH_FAILED, "missing bearer token".to_owned()));
    }
    match claims {
        Some(c) => {
            let mut es: Vec<(String, Json)> = Vec::new();
            put_field(&mut es, "userId", Json::Str(c.sub));
            put_field(&mut es, "name", Json::Str(c.name));
            Ok(Json::Object(es))
        },
        None => Err(
            ServerError::new(codes::AUTH_FAILED, "invalid or expired token".to_owned()),
        ),
    }
}

/// A text field of optional auth data, or a default.
pub open spec fn auth_text(auth: Option<JsonView>, field: Seq<char>, default: Seq<char>) -> Seq<char> {
    match auth {
        Some(a) => match option_field(a, field) {
            Some(JsonView::Str(t)) => t,
            _ => default,
        },
        None => default,
    }
}

/// A text field of optional auth data, or a default.
pub fn auth_field(auth: &Option<Json>, field: &str, default: &str) -> (r: String)
    ensures
        r@ == auth_text(option_view(*auth), field@, default@),
{
    match auth {
        Some(a) => match get_field(a, field) {
            Some(Json::Str(t)) => t.clone(),
            _ => default.to_owned(),
        },
        None => default.to_owned(),
    }
}

// ---------------------------------------------------------------------
// state
// ---------------------------------------------------------------------

/// A player: X or O, and a display name.
#[derive(Debug)]
pub struct PlayerInfo {
    pub symbol: String,
    pub name: String,
}

/// What a player stands for.
pub struct PlayerView {
    pub symbol: Seq<char>,
    pub name: Seq<char>,
}

impl View for PlayerInfo {
    type V = PlayerView;

    open spec fn view(&self) -> PlayerView {
        PlayerView { symbol: self.symbol@, name: self.name@ }
    }
}

/// The game.
pub struct TttState {
    /// Nine cells: "", "X" or "O".
    pub board: Vec<String>,
    /// By session id.
    pub players: Table<PlayerInfo>,
    /// "X" or "O".
    pub turn: String,
    /// "waiting", "playing" or "finished".
    pub status: String,
    /// "X", "O", "draw" or nobody yet.
    pub winner: Option<String>,
}

/// What a game stands for.
pub struct GameView {
    pub board: Seq<Seq<char>>,
    pub players: Seq<(Seq<char>, PlayerView)>,
    pub turn: Seq<char>,
    pub status: Seq<char>,
    pub winner: Option<Seq<char>>,
}

impl View for TttState {
    type V = GameView;

    open spec fn view(&self) -> GameView {
        GameView {
            board: text_views(self.board@),
            players: self.players@,
            turn: self.turn@,
            status: self.status@,
            winner: text_option(self.winner),
        }
    }
}

/// A board without marks.
pub open spec fn empty_board() -> Seq<Seq<char>> {
    Seq::new(9, |i: int| Seq::<char>::empty())
}

/// A game that waits for its players.
pub open spec fn new_game() -> GameView {
    GameView {
        board: empty_board(),
        players: seq![],
        turn: "X"@,
        status: "waiting"@,
        winner: None,
    }
}

/// The game started over with its players.
pub open spec fn restarted(g: GameView) -> GameView {
    GameView {
        board: empty_board(),
        turn: "X"@,
        winner: None,
        status: if g.players.len() == 2 {
            "playing"@
        } else {
            "waiting"@
        },
        ..g
    }
}

/// Three cells hold the same mark.
pub open spec fn is_line(b: Seq<Seq<char>>, x: int, y: int, z: int) -> bool {
    b[x].len() > 0 && b[x] == b[y] && b[y] == b[z]
}

/// Every cell holds a mark.
pub open spec fn is_full_board(b: Seq<Seq<char>>) -> bool {
    forall|i: int| 0 <= i < b.len() ==> (#[trigger] b[i]).len() > 0
}

/// Who won: the mark of the first line, a draw on a full board, nobody yet.
pub open spec fn winner_of(b: Seq<Seq<char>>) -> Option<Seq<char>> {
    if is_line(b, 0, 1, 2) {
        Some(b[0])
    } else if is_line(b, 3, 4, 5) {
        Some(b[3])
    } else if is_line(b, 6, 7, 8) {
        Some(b[6])
    } else if is_line(b, 0, 3, 6) {
        Some(b[0])
    } else if is_line(b, 1, 4, 7) {
        Some(b[1])
    } else if is_line(b, 2, 5, 8) {
        Some(b[2])
    } else if is_line(b, 0, 4, 8) {
        Some(b[0])
    } else if is_line(b, 2, 4, 6) {
        Some(b[2])
    } else if is_full_board(b) {
        Some("draw"@)
    } else {
        None
    }
}

fn has_line(board: &Vec<String>, x: usize, y: usize, z: usize) -> (r: bool)
    requires
        board.len() >= 9,
        x < 9,
        y < 9,
        z < 9,
    ensures
        r == is_line(text_views(board@), x as int, y as int, z as int),
{
    !is_blank(board[x].as_str()) && board[x] == board[y] && board[y] == board[z]
}

/// Who won, if anybody did.
pub fn check_winner(board: &Vec<String>) -> (r: Option<String>)
    requires
        board.len() >= 9,
    ensures
        text_option(r) == winner_of(text_views(board@)),
{
    let ghost b = text_views(board@);
    if has_line(board, 0, 1, 2) {
        return Some(board[0].clone());
    }
    if has_line(board, 3, 4, 5) {
        return Some(board[3].clone());
    }
    if has_line(board, 6, 7, 8) {
        return Some(board[6].clone());
    }
    if has_line(board, 0, 3, 6) {
        return Some(board[0].clone());
    }
    if has_line(board, 1, 4, 7) {
        return Some(board[1].clone());
    }
    if has_line(board, 2, 5, 8) {
        return Some(board[2].clone());
    }
    if has_line(board, 0, 4, 8) {
        return Some(board[0].clone());
    }
    if has_line(board, 2, 4, 6) {
        return Some(board[2].clone());
    }
    let mut i: usize = 0;
    let mut full: bool = true;
    while i < board.len()
        invariant
            i <= board.len(),
            b == text_views(board@),
            full ==> forall|k: int| 0 <= k < i ==> (#[trigger] b[k]).len() > 0,
            !full ==> exists|k: int| 0 <= k < i && (#[trigger] b[k]).len() == 0,
        decreases board.len() - i,
    {
        proof {
            assert(b[i as int] == board@[i as int]@);
        }
        if is_blank(board[i].as_str()) {
            full = false;
        }
        i = i + 1;
    }
    if full {
        return Some("draw".to_owned());
    }
    None
}

pub open spec fn game_error(message: Seq<char>) -> ErrorView {
    ErrorView { code: codes::APPLICATION_ERROR, message }
}

/// What a move leads to: the game after it and what is announced, or why it is
/// refused.
pub open spec fn moved(g: GameView, session_id: Seq<char>, cell: int) -> Result<
    (GameView, Option<Seq<char>>),
    ErrorView,
> {
    if g.status != "playing"@ {
        Err(game_error("game is not in progress"@))
    } else {
        match table_get(g.players, session_id) {
            None => Err(game_error("you are not a player"@)),
            Some(p) => if p.symbol != g.turn {
                Err(game_error("not your turn"@))
            } else if cell >= 9 || g.board[cell].len() > 0 {
                Err(game_error("invalid cell"@))
            } else {
                let board = g.board.update(cell, p.symbol);
                match winner_of(board) {
                    Some(w) => Ok(
                        (
                            GameView { board, status: "finished"@, winner: Some(w), ..g },
                            Some(
                                if w == "draw"@ {
                                    "draw!"@
                                } else {
                                    p.name + " wins!"@
                                },
                            ),
                        ),
                    ),
                    None => Ok(
                        (
                            GameView {
                                board,
                                turn: if p.symbol == "X"@ {
                                    "O"@
                                } else {
                                    "X"@
                                },
                                ..g
                            },
                            None,
                        ),
                    ),
                }
            },
        }
    }
}

/// A result of a move, read through its views.
pub open spec fn move_result(g: GameView, r: Result<Option<String>, ServerError>) -> Result<
    (GameView, Option<Seq<char>>),
    ErrorView,
> {
    match r {
        Ok(a) => Ok((g, text_option(a))),
        Err(e) => Err(e@),
    }
}

fn blank_board() -> (r: Vec<String>)
    ensures
        text_views(r@) == empty_board(),
        r.len() == 9,
{
    let mut r: Vec<String> = Vec::new();
    let mut i: usize = 0;
    while i < 9
        invariant
            i <= 9,
            r.len() == i,
            forall|k: int| 0 <= k < i ==> (#[trigger] r@[k])@ == Seq::<char>::empty(),
        decreases 9 - i,
    {
        r.push(String::new());
        i = i + 1;
    }
    proof {
        assert(text_views(r@) =~= empty_board());
    }
    r
}

impl TttState {
    pub fn new() -> (r: Self)
        ensures
            r@ == new_game(),
            r.board.len() == 9,
    {
        TttState {
            board: blank_board(),
            players: Table::new(),
            turn: "X".to_owned(),
            status: "waiting".to_owned(),
            winner: None,
        }
    }

    /// Starts the game over with its players.
    pub fn reset(&mut self)
        ensures
            final(self)@ == restarted(old(self)@),
            final(self).board.len() == 9,
    {
        self.board = blank_board();
        self.turn = "X".to_owned();
        self.winner = None;
        self.status = if self.players.len() == 2 {
            "playing".to_owned()
        } else {
            "waiting".to_owned()
        };
        proof {
            assert(text_views(self.board@).len() == self.board@.len());
        }
    }

    /// Makes a move. Returns what is to be announced.
    pub fn play(&mut self, session_id: &str, cell: usize) -> (r: Result<Option<String>, ServerError>)
        requires
            old(self).board.len() >= 9,
        ensures
            move_result(final(self)@, r) == moved(old(self)@, session_id@, cell as int),
            r is Err ==> final(self)@ == old(self)@,
    {
        let ghost before = self@;
        if !same_text(self.status.as_str(), "playing") {
            return Err(
                ServerError::new(
                    codes::APPLICATION_ERROR,
                    "game is not in progress".to_owned(),
                ),
            );
        }
        let (symbol, name): (String, String) = match self.players.get(session_id) {
            Some(p) => (p.symbol.clone(), p.name.clone()),
            None => {
                return Err(
                    ServerError::new(codes::APPLICATION_ERROR, "you are not a player".to_owned()),
                );
            },
        };
        if !same_text(symbol.as_str(), self.turn.as_str()) {
            return Err(ServerError::new(codes::APPLICATION_ERROR, "not your turn".to_owned()));
        }
        if cell >= 9 || !is_blank(self.board[cell].as_str()) {
            return Err(ServerError::new(codes::APPLICATION_ERROR, "invalid cell".to_owned()));
        }
        self.board.set(cell, symbol.clone());
        proof {
            assert(text_views(self.board@) =~= before.board.update(cell as int, symbol@));
        }
        match check_winner(&self.board) {
            Some(w) => {
                self.status = "finished".to_owned();
                let text: String = if same_text(w.as_str(), "draw") {
                    "draw!".to_owned()
                } else {
                    joined(name.as_str(), " wins!")
                };
                self.winner = Some(w);
                Ok(Some(text))
            },
            None => {
                self.turn = if same_text(symbol.as_str(), "X") {
                    "O".to_owned()
                } else {
                    "X".to_owned()
                };
                Ok(None)
            },
        }
    }

    /// Starts a finished game over, and says whether it did.
    pub fn rematch(&mut self) -> (r: bool)
        ensures
            r == (old(self)@.status == "finished"@),
            final(self)@ == if r {
                restarted(old(self)@)
            } else {
                old(self)@
            },
    {
        if same_text(self.status.as_str(), "finished") {
            self.reset();
            true
        } else {
            false
        }
    }
}

/// The players as JSON, by session id.
pub open spec fn players_json(players: Seq<(Seq<char>, PlayerView)>) -> Map<Seq<char>, JsonView>
    decreases players.len(),
{
    if players.len() == 0 {
        Map::empty()
    } else {
        let (sid, p) = players.last();
        players_json(players.drop_last()).insert(
            sid,
            JsonView::Object(
                Map::<Seq<char>, JsonView>::empty().insert("symbol"@, JsonView::Str(p.symbol)).insert(
                    "name"@,
                    JsonView::Str(p.name),
                ),
            ),
        )
    }
}

/// The game as clients see it.
pub open spec fn game_json(g: GameView) -> JsonView {
    JsonView::Object(
        Map::<Seq<char>, JsonView>::empty().insert(
            "board"@,
            JsonView::Array(g.board.map_values(|c: Seq<char>| JsonView::Str(c))),
        ).insert("players"@, JsonView::Object(players_json(g.players))).insert(
            "turn"@,
            JsonView::Str(g.turn),
        ).insert("status"@, JsonView::Str(g.status)).insert(
            "winner"@,
            match g.winner {
                Some(w) => JsonView::Str(w),
                None => JsonView::Null,
            },
        ),
    )
}

impl TttState {
    /// The game as clients see it.
    pub fn to_json(&self) -> (r: Json)
        ensures
            r@ == game_json(self@),
    {
        let ghost g = self@;
        let mut cells: Vec<Json> = Vec::new();
        let mut i: usize = 0;
        while i < self.board.len()
            invariant
                i <= self.board.len(),
                g == self@,
                cells.len() == i,
                forall|k: int| 0 <= k < i ==> (#[trigger] cells@[k])@ == JsonView::Str(g.board[k]),
            decreases self.board.len() - i,
        {
            cells.push(Json::Str(self.board[i].clone()));
            i = i + 1;
        }
        proof {
            assert(values_view(cells@) =~= g.board.map_values(|c: Seq<char>| JsonView::Str(c)));
        }
        let mut players: Vec<(String, Json)> = Vec::new();
        let mut j: usize = 0;
        proof {
            assert(g.players.take(0) =~= seq![]);
        }
        while j < self.players.entries.len()
            invariant
                j <= self.players.entries.len(),
                g == self@,
                entries_view(players@) == players_json(g.players.take(j as int)),
            decreases self.players.entries.len() - j,
        {
            let e: &(String, PlayerInfo) = &self.players.entries[j];
            proof {
                assert(g.players.take(j + 1).drop_last() =~= g.players.take(j as int));
                assert(g.players[j as int] == (e.0@, e.1@));
            }
            let mut info: Vec<(String, Json)> = Vec::new();
            put_field(&mut info, "symbol", Json::Str(e.1.symbol.clone()));
            put_field(&mut info, "name", Json::Str(e.1.name.clone()));
            put_field(&mut players, e.0.as_str(), Json::Object(info));
            j = j + 1;
        }
        proof {
            assert(g.players.take(g.players.len() as int) =~= g.players);
        }
        let winner: Json = match &self.winner {
            Some(w) => Json::Str(w.clone()),
            None => Json::Null,
        };
        let mut es: Vec<(String, Json)> = Vec::new();
        put_field(&mut es, "board", Json::array(cells));
        put_field(&mut es, "players", Json::Object(players));
        put_field(&mut es, "turn", Json::Str(self.turn.clone()));
        put_field(&mut es, "status", Json::Str(self.status.clone()));
        put_field(&mut es, "winner", winner);
        Json::Object(es)
    }
}

/// A room's handlers, and behind them those of a game.
pub open spec fn game_routes(r: RoutesView) -> RoutesView {
    with_text(with_text(with_text(r, "move"@), "chat"@), "rematch"@)
}

/// The context of a new game's room.
pub open spec fn opened(c: ContextView) -> ContextView {
    ContextView {
        patch_rate: Some(50),
        routes: game_routes(c.routes),
        ..synced(
            ContextView {
                max_clients: Some(2),
                state: Some((game_json(new_game()), game_json(new_game()))),
                ..c
            },
        )
    }
}

/// Sets a new room up: for two clients, with a new game, and with handlers for
/// moves, for chat and for rematches.
pub fn on_create(ctx: &mut RoomContext) -> (r: TttState)
    requires
        old(ctx)@.routes.last_id + 3 <= u64::MAX,
    ensures
        r@ == new_game(),
        r.board.len() == 9,
        final(ctx)@ == opened(old(ctx)@),
{
    let state: TttState = TttState::new();
    ctx.set_state(state.to_json());
    ctx.set_max_clients(Some(2));
    ctx.set_patch_rate(Some(50));
    ctx.on_message(MessageType::text("move"));
    ctx.on_message(MessageType::text("chat"));
    ctx.on_message(MessageType::text("rematch"));
    state
}

/// How many cells hold a mark.
pub open spec fn marks(b: Seq<Seq<char>>, symbol: Seq<char>) -> nat
    decreases b.len(),
{
    if b.len() == 0 {
        0
    } else {
        marks(b.drop_last(), symbol) + if b.last() == symbol {
            1nat
        } else {
            0nat
        }
    }
}

proof fn lemma_marks_update(b: Seq<Seq<char>>, i: int, t: Seq<char>, symbol: Seq<char>)
    requires
        0 <= i < b.len(),
    ensures
        marks(b.update(i, t), symbol) + (if b[i] == symbol {
            1nat
        } else {
            0nat
        }) == marks(b, symbol) + (if t == symbol {
            1nat
        } else {
            0nat
        }),
    decreases b.len(),
{
    let u = b.update(i, t);
    if i == b.len() - 1 {
        assert(u.drop_last() =~= b.drop_last());
    } else {
        lemma_marks_update(b.drop_last(), i, t, symbol);
        assert(u.drop_last() =~= b.drop_last().update(i, t));
    }
}

/// While a game is on, X and O have made as many moves, or X one more and it is
/// O's turn.
pub open spec fn is_fair(g: GameView) -> bool {
    &&& g.board.len() == 9
    &&& g.turn == "X"@ || g.turn == "O"@
    &&& g.turn == "X"@ ==> marks(g.board, "X"@) == marks(g.board, "O"@)
    &&& g.turn == "O"@ ==> marks(g.board, "X"@) == marks(g.board, "O"@) + 1
}

proof fn lemma_empty_marks(b: Seq<Seq<char>>, symbol: Seq<char>)
    requires
        symbol.len() > 0,
        forall|i: int| 0 <= i < b.len() ==> (#[trigger] b[i]).len() == 0,
    ensures
        marks(b, symbol) == 0,
    decreases b.len(),
{
    if b.len() > 0 {
        assert(b[b.len() - 1].len() == 0);
        assert forall|i: int| 0 <= i < b.drop_last().len() implies (
        #[trigger] b.drop_last()[i]).len() == 0 by {
            assert(b[i].len() == 0);
        }
        lemma_empty_marks(b.drop_last(), symbol);
    }
}

/// The players take turns: a game starts fair, and a move that does not end it
/// leaves it fair.
pub proof fn law_players_take_turns(g: GameView, session_id: Seq<char>, cell: int)
    requires
        is_fair(g),
        cell >= 0,
    ensures
        is_fair(new_game()),
        is_fair(restarted(g)),
        moved(g, session_id, cell) matches Ok((after, None)) ==> is_fair(after),
{
    reveal_strlit("X");
    reveal_strlit("O");
    assert("X"@[0] != "O"@[0]);
    lemma_empty_marks(empty_board(), "X"@);
    lemma_empty_marks(empty_board(), "O"@);
    if let Ok((after, None)) = moved(g, session_id, cell) {
        let p = table_get(g.players, session_id)->Some_0;
        lemma_marks_update(g.board, cell, p.symbol, "X"@);
        lemma_marks_update(g.board, cell, p.symbol, "O"@);
    }
}

/// A move marks one free cell and no other.
pub proof fn law_move_marks_one_cell(g: GameView, session_id: Seq<char>, cell: int, other: int)
    requires
        g.board.len() == 9,
        cell >= 0,
        moved(g, session_id, cell) is Ok,
        0 <= other < 9,
    ensures
        g.board[cell].len() == 0,
        moved(g, session_id, cell)->Ok_0.0.board[other] == if other == cell {
            g.turn
        } else {
            g.board[other]
        },
{
}

/// A finished game takes no move.
pub proof fn law_finished_game_is_over(g: GameView, session_id: Seq<char>, cell: int, next: int)
    requires
        cell >= 0,
        next >= 0,
        moved(g, session_id, cell) matches Ok((_, Some(_))),
    ensures
        moved(moved(g, session_id, cell)->Ok_0.0, session_id, next) == Err::<
            (GameView, Option<Seq<char>>),
            ErrorView,
        >(game_error("game is not in progress"@)),
{
    reveal_strlit("playing");
    reveal_strlit("finished");
    assert("playing"@.len() != "finished"@.len());
}

// ---------------------------------------------------------------------
// the room
// ---------------------------------------------------------------------

/// A system message.
pub open spec fn text_json(text: Seq<char>) -> JsonView {
    JsonView::Object(
        Map::<Seq<char>, JsonView>::empty().insert("text"@, JsonView::Str(text)),
    )
}

/// The context after a system message went to everybody.
pub open spec fn announced(c: ContextView, text: Seq<char>) -> ContextView {
    broadcasted(c, TypeView::Str("system"@), text_json(text))
}

/// The context with the game as it is now. Clients hear of it with the next patch.
pub open spec fn shown(c: ContextView, g: GameView) -> ContextView {
    match c.state {
        Some((_, told)) => ContextView { state: Some((game_json(g), told)), ..c },
        None => c,
    }
}

/// Sends a system message to everybody.
pub fn announce(ctx: &mut RoomContext, text: String)
    ensures
        final(ctx)@ == announced(old(ctx)@, text@),
{
    let mut es: Vec<(String, Json)> = Vec::new();
    put_field(&mut es, "text", Json::Str(text));
    ctx.broadcast(&MessageType::text("system"), &Json::Object(es));
}

/// A chat message as it is broadcast: from a player by name, from anybody else by
/// session id, and at most so long.
pub open spec fn chat_json(g: GameView, session_id: Seq<char>, text: Seq<char>) -> JsonView {
    JsonView::Object(
        Map::<Seq<char>, JsonView>::empty().insert(
            "from"@,
            JsonView::Str(
                match table_get(g.players, session_id) {
                    Some(p) => p.name,
                    None => session_id,
                },
            ),
        ).insert(
            "text"@,
            JsonView::Str(
                if text.len() <= CHAT_MAX {
                    text
                } else {
                    text.take(CHAT_MAX as int)
                },
            ),
        ),
    )
}

/// A chat message as it is broadcast.
pub fn chat_message(state: &TttState, session_id: &str, text: &str) -> (r: Json)
    ensures
        r@ == chat_json(state@, session_id@, text@),
{
    let from: String = match state.players.get(session_id) {
        Some(p) => p.name.clone(),
        None => session_id.to_owned(),
    };
    let v: Vec<char> = chars_of(text);
    let n: usize = if v.len() <= CHAT_MAX {
        v.len()
    } else {
        CHAT_MAX
    };
    let short: String = slice_text(&v, 0, n);
    proof {
        if v.len() <= CHAT_MAX {
            assert(v@.subrange(0, n as int) =~= text@);
        } else {
            assert(v@.subrange(0, n as int) =~= text@.take(CHAT_MAX as int));
        }
    }
    let mut es: Vec<(String, Json)> = Vec::new();
    put_field(&mut es, "from", Json::Str(from));
    put_field(&mut es, "text", Json::Str(short));
    Json::Object(es)
}

/// The first client of another session with the same user.
pub open spec fn stale_client(
    cs: Seq<ClientView>,
    session_id: Seq<char>,
    user_id: Seq<char>,
) -> Option<Seq<char>>
    decreases cs.len(),
{
    if cs.len() == 0 {
        None
    } else if cs[0].session_id != session_id && is_user(cs[0].auth, user_id) {
        Some(cs[0].session_id)
    } else {
        stale_client(cs.drop_first(), session_id, user_id)
    }
}

/// The auth data is of this user.
pub open spec fn is_user(auth: Option<JsonView>, user_id: Seq<char>) -> bool {
    auth matches Some(a) && option_field(a, "userId"@) == Some(JsonView::Str(user_id))
}

fn find_stale(cs: &Vec<Client>, session_id: &str, user_id: &str) -> (r: Option<String>)
    ensures
        text_option(r) == stale_client(client_views(cs@), session_id@, user_id@),
{
    let ghost all = client_views(cs@);
    let mut i: usize = 0;
    proof {
        assert(all.skip(0) =~= all);
    }
    while i < cs.len()
        invariant
            i <= cs.len(),
            all == client_views(cs@),
            stale_client(all, session_id@, user_id@) == stale_client(
                all.skip(i as int),
                session_id@,
                user_id@,
            ),
        decreases cs.len() - i,
    {
        proof {
            assert(all.skip(i as int).drop_first() =~= all.skip(i + 1));
            assert(all.skip(i as int)[0] == cs@[i as int]@);
        }
        if !same_text(cs[i].session_id.as_str(), session_id) {
            let same: bool = match &cs[i].auth {
                Some(a) => match get_field(a, "userId") {
                    Some(Json::Str(t)) => same_text(t.as_str(), user_id),
                    _ => false,
                },
                None => false,
            };
            if same {
                return Some(cs[i].session_id.clone());
            }
        }
        i = i + 1;
    }
    None
}

/// The players after one took over another's seat.
pub open spec fn seat_moved(
    players: Seq<(Seq<char>, PlayerView)>,
    from: Seq<char>,
    to: Seq<char>,
) -> Seq<(Seq<char>, PlayerView)> {
    match table_get(players, from) {
        Some(p) => table_set(table_remove(players, from), to, p),
        None => players,
    }
}

/// A player of this symbol is there.
pub open spec fn has_symbol(players: Seq<(Seq<char>, PlayerView)>, symbol: Seq<char>) -> bool {
    exists|i: int| 0 <= i < players.len() && (#[trigger] players[i]).1.symbol == symbol
}

/// The context and the game after a client joined. A user who is in the room
/// under another session takes that seat over; anybody else gets the symbol that
/// is free.
pub open spec fn joined_game(
    c: ContextView,
    g: GameView,
    session_id: Seq<char>,
    auth: Option<JsonView>,
) -> (ContextView, GameView) {
    let name = auth_text(auth, "name"@, "anonymous"@);
    let user_id = auth_text(auth, "userId"@, ""@);
    let stale = if user_id.len() == 0 {
        None
    } else {
        stale_client(c.clients, session_id, user_id)
    };
    match stale {
        Some(from) => {
            let left = match client_index(c.clients, from) {
                Some(i) => ContextView {
                    clients: c.clients.update(
                        i,
                        told_to_leave(c.clients[i], codes::MATCHMAKE_EXPIRED, "session moved"@),
                    ),
                    ..c
                },
                None => c,
            };
            let moved = GameView { players: seat_moved(g.players, from, session_id), ..g };
            (shown(announced(forgotten(left, from), name + " rejoined"@), moved), moved)
        },
        None => {
            let symbol = if has_symbol(g.players, "X"@) {
                "O"@
            } else {
                "X"@
            };
            let players = table_set(g.players, session_id, PlayerView { symbol, name });
            let seated = GameView {
                players,
                status: if players.len() == 2 {
                    "playing"@
                } else {
                    g.status
                },
                ..g
            };
            (shown(announced(c, name + " joined as "@ + symbol), seated), seated)
        },
    }
}

fn x_is_taken(players: &Table<PlayerInfo>) -> (r: bool)
    ensures
        r == has_symbol(players@, "X"@),
{
    let ghost all = players@;
    let mut i: usize = 0;
    while i < players.entries.len()
        invariant
            i <= players.entries.len(),
            all == players@,
            forall|k: int| 0 <= k < i ==> (#[trigger] all[k]).1.symbol != "X"@,
        decreases players.entries.len() - i,
    {
        proof {
            assert(all[i as int].1 == players.entries@[i as int].1@);
        }
        if same_text(players.entries[i].1.symbol.as_str(), "X") {
            return true;
        }
        i = i + 1;
    }
    false
}

/// A client joins the room.
pub fn on_join(ctx: &mut RoomContext, state: &mut TttState, session_id: &str, auth: &Option<Json>)
    ensures
        (final(ctx)@, final(state)@) == joined_game(
            old(ctx)@,
            old(state)@,
            session_id@,
            option_view(*auth),
        ),
        final(state).board == old(state).board,
{
    let name: String = auth_field(auth, "name", "anonymous");
    let user_id: String = auth_field(auth, "userId", "");
    let stale: Option<String> = if is_blank(user_id.as_str()) {
        None
    } else {
        find_stale(&ctx.clients, session_id, user_id.as_str())
    };
    if let Some(from) = stale {
        let ghost before = ctx@;
        match find_client(&ctx.clients, from.as_str()) {
            Some(i) => {
                proof {
                    assert(before.clients[i as int] == ctx.clients@[i as int]@);
                }
                ctx.clients[i].leave(Some(codes::MATCHMAKE_EXPIRED), Some("session moved"));
                proof {
                    assert(ctx@.clients =~= before.clients.update(
                        i as int,
                        ctx.clients@[i as int]@,
                    ));
                }
            },
            None => {},
        }
        ctx.remove_client(from.as_str());
        let seat: Option<PlayerInfo> = match state.players.get(from.as_str()) {
            Some(p) => Some(PlayerInfo { symbol: p.symbol.clone(), name: p.name.clone() }),
            None => None,
        };
        if let Some(p) = seat {
            state.players.remove(from.as_str());
            state.players.set(session_id, p);
        }
        announce(ctx, joined(name.as_str(), " rejoined"));
        ctx.update_state(state.to_json());
        return ;
    }
    let symbol: &str = if x_is_taken(&state.players) {
        "O"
    } else {
        "X"
    };
    state.players.set(session_id, PlayerInfo { symbol: symbol.to_owned(), name: name.clone() });
    if state.players.len() == 2 {
        state.status = "playing".to_owned();
    }
    let mut text: String = joined(name.as_str(), " joined as ");
    text.append(symbol);
    announce(ctx, text);
    ctx.update_state(state.to_json());
}

/// The context after a player's connection dropped.
pub open spec fn dropped(c: ContextView, session_id: Seq<char>, now: u64) -> ContextView {
    announced(
        session_allowed(c, session_id, Some(RECONNECT_MS), now).0,
        "opponent disconnected…"@,
    )
}

/// A player's connection dropped: they have a minute to come back.
pub fn on_drop(ctx: &mut RoomContext, session_id: &str, now: u64)
    ensures
        final(ctx)@ == dropped(old(ctx)@, session_id@, now),
{
    let _allowed: bool = ctx.allow_reconnection(session_id, Some(RECONNECT_MS), now);
    announce(ctx, "opponent disconnected…".to_owned());
}

/// A player came back.
pub fn on_reconnect(ctx: &mut RoomContext)
    ensures
        final(ctx)@ == announced(old(ctx)@, "opponent reconnected"@),
{
    announce(ctx, "opponent reconnected".to_owned());
}

/// The context and the game after a player left for good.
pub open spec fn left_game(c: ContextView, g: GameView, session_id: Seq<char>) -> (
    ContextView,
    GameView,
) {
    let name = match table_get(g.players, session_id) {
        Some(p) => p.name,
        None => Seq::<char>::empty(),
    };
    let waiting = restarted(
        GameView { players: table_remove(g.players, session_id), ..g },
    );
    (shown(announced(c, name + " left the game"@), waiting), waiting)
}

/// A player left for good: the game waits for another, and the one who stays
/// keeps the seat.
pub fn on_leave(ctx: &mut RoomContext, state: &mut TttState, session_id: &str)
    ensures
        (final(ctx)@, final(state)@) == left_game(old(ctx)@, old(state)@, session_id@),
        final(state).board.len() == 9,
{
    let name: String = match state.players.get(session_id) {
        Some(p) => p.name.clone(),
        None => String::new(),
    };
    state.players.remove(session_id);
    state.reset();
    announce(ctx, joined(name.as_str(), " left the game"));
    ctx.update_state(state.to_json());
}

/// The context and the game after a move, or why it is refused.
pub open spec fn move_made(c: ContextView, g: GameView, session_id: Seq<char>, cell: int) -> Result<
    (ContextView, GameView),
    ErrorView,
> {
    match moved(g, session_id, cell) {
        Ok((after, text)) => Ok(
            (
                shown(
                    match text {
                        Some(t) => announced(c, t),
                        None => c,
                    },
                    after,
                ),
                after,
            ),
        ),
        Err(e) => Err(e),
    }
}

/// A message that asks for a move.
pub fn on_move(ctx: &mut RoomContext, state: &mut TttState, session_id: &str, cell: usize) -> (r:
    Result<(), ServerError>)
    requires
        old(state).board.len() >= 9,
    ensures
        match move_made(old(ctx)@, old(state)@, session_id@, cell as int) {
            Ok((c, g)) => r is Ok && final(state)@ == g && final(ctx)@ == c,
            Err(e) => (r matches Err(x) && x@ == e) && final(state)@ == old(state)@ && final(ctx)@
                == old(ctx)@,
        },
{
    match state.play(session_id, cell) {
        Ok(text) => {
            if let Some(t) = text {
                announce(ctx, t);
            }
            ctx.update_state(state.to_json());
            Ok(())
        },
        Err(e) => Err(e),
    }
}

/// The context after a client's message was passed on.
pub open spec fn passed_on(
    c: ContextView,
    g: GameView,
    session_id: Seq<char>,
    text: Seq<char>,
) -> ContextView {
    broadcasted(c, TypeView::Str("chat"@), chat_json(g, session_id, text))
}

/// A message to be passed on to everybody.
pub fn on_chat(ctx: &mut RoomContext, state: &TttState, session_id: &str, text: &str)
    ensures
        final(ctx)@ == passed_on(old(ctx)@, state@, session_id@, text@),
{
    let message: Json = chat_message(state, session_id, text);
    ctx.broadcast(&MessageType::text("chat"), &message);
}

/// The context and the game after another one was asked for.
pub open spec fn rematched(c: ContextView, g: GameView) -> (ContextView, GameView) {
    if g.status == "finished"@ {
        (shown(announced(c, "rematch!"@), restarted(g)), restarted(g))
    } else {
        (c, g)
    }
}

/// A message that asks for another game.
pub fn on_rematch(ctx: &mut RoomContext, state: &mut TttState)
    ensures
        (final(ctx)@, final(state)@) == rematched(old(ctx)@, old(state)@),
{
    if state.rematch() {
        announce(ctx, "rematch!".to_owned());
        ctx.update_state(state.to_json());
    }
}

/// A user who joins again under a new session has the seat of the old one, with
/// its symbol, and the old session has none.
pub proof fn law_takeover_keeps_symbol(
    players: Seq<(Seq<char>, PlayerView)>,
    from: Seq<char>,
    to: Seq<char>,
)
    requires
        from != to,
        table_get(players, from) is Some,
    ensures
        table_get(seat_moved(players, from, to), to) == table_get(players, from),
        table_get(seat_moved(players, from, to), from) is None,
{
    lemma_table_remove(players, from);
    lemma_table_set(table_remove(players, from), to, table_get(players, from)->Some_0);
}

}
