//! What tic-tac-toe is: three in a row win, and players take turns on free cells.

use crate::client::{ClientView, OutboundView};
use crate::json::JsonView;
use crate::protocol::TypeView;
use crate::room::{client_index, lemma_client_index, unique_sessions, ContextView};
use crate::room_laws::{is_in, law_allowed_client_may_come_back, law_others_stay, message_bytes};
use crate::routes::{ids_for, law_handlers_get_their_messages, with_typed};
use crate::server_laws::member;
use crate::table::{lemma_table_index, lemma_table_remove, lemma_table_set, table_get};
use crate::tictactoe::{
    authenticated, dropped, game_json, game_routes, joined_game, left_game, move_made, moved,
    new_game, opened, passed_on, players_json, rematched, stale_client, winner_of, Claims, GameView,
    PlayerView,
};
use vstd::prelude::*;

verus! {

/// The cell in a row and a column of a board of three by three.
pub open spec fn cell_at(b: Seq<Seq<char>>, row: int, column: int) -> Seq<char> {
    b[3 * row + column]
}

/// A mark fills a whole row, a whole column or a whole diagonal.
pub open spec fn fills_line(b: Seq<Seq<char>>, mark: Seq<char>) -> bool {
    ||| exists|r: int|
        0 <= r < 3 && (forall|c: int| 0 <= c < 3 ==> #[trigger] cell_at(b, r, c) == mark)
            && #[trigger] cell_at(b, r, 0) == mark
    ||| exists|c: int|
        0 <= c < 3 && (forall|r: int| 0 <= r < 3 ==> #[trigger] cell_at(b, r, c) == mark)
            && #[trigger] cell_at(b, 0, c) == mark
    ||| forall|k: int| 0 <= k < 3 ==> #[trigger] cell_at(b, k, k) == mark
    ||| forall|k: int| 0 <= k < 3 ==> #[trigger] cell_at(b, k, 2 - k) == mark
}

/// A board of nine cells, each free or with a mark of one of the players.
pub open spec fn is_board(b: Seq<Seq<char>>) -> bool {
    b.len() == 9 && forall|i: int|
        0 <= i < 9 ==> (#[trigger] b[i]).len() == 0 || b[i] == "X"@ || b[i] == "O"@
}

proof fn lemma_marks()
    ensures
        "X"@.len() == 1,
        "O"@.len() == 1,
        "X"@ != "O"@,
        "draw"@.len() == 4,
{
    reveal_strlit("X");
    reveal_strlit("O");
    reveal_strlit("draw");
    assert("X"@[0] != "O"@[0]);
}

proof fn lemma_line_cells(b: Seq<Seq<char>>, mark: Seq<char>)
    requires
        b.len() == 9,
    ensures
        fills_line(b, mark) <==> {
            ||| b[0] == mark && b[1] == mark && b[2] == mark
            ||| b[3] == mark && b[4] == mark && b[5] == mark
            ||| b[6] == mark && b[7] == mark && b[8] == mark
            ||| b[0] == mark && b[3] == mark && b[6] == mark
            ||| b[1] == mark && b[4] == mark && b[7] == mark
            ||| b[2] == mark && b[5] == mark && b[8] == mark
            ||| b[0] == mark && b[4] == mark && b[8] == mark
            ||| b[2] == mark && b[4] == mark && b[6] == mark
        },
{
    assert(cell_at(b, 0, 0) == b[0]);
    assert(cell_at(b, 0, 1) == b[1]);
    assert(cell_at(b, 0, 2) == b[2]);
    assert(cell_at(b, 1, 0) == b[3]);
    assert(cell_at(b, 1, 1) == b[4]);
    assert(cell_at(b, 1, 2) == b[5]);
    assert(cell_at(b, 2, 0) == b[6]);
    assert(cell_at(b, 2, 1) == b[7]);
    assert(cell_at(b, 2, 2) == b[8]);
    if exists|r: int|
        0 <= r < 3 && (forall|c: int| 0 <= c < 3 ==> #[trigger] cell_at(b, r, c) == mark)
            && #[trigger] cell_at(b, r, 0) == mark {
        let r = choose|r: int|
            0 <= r < 3 && (forall|c: int| 0 <= c < 3 ==> #[trigger] cell_at(b, r, c) == mark)
                && #[trigger] cell_at(b, r, 0) == mark;
        assert(cell_at(b, r, 1) == mark);
        assert(cell_at(b, r, 2) == mark);
    }
    if exists|c: int|
        0 <= c < 3 && (forall|r: int| 0 <= r < 3 ==> #[trigger] cell_at(b, r, c) == mark)
            && #[trigger] cell_at(b, 0, c) == mark {
        let c = choose|c: int|
            0 <= c < 3 && (forall|r: int| 0 <= r < 3 ==> #[trigger] cell_at(b, r, c) == mark)
                && #[trigger] cell_at(b, 0, c) == mark;
        assert(cell_at(b, 1, c) == mark);
        assert(cell_at(b, 2, c) == mark);
    }
    if forall|k: int| 0 <= k < 3 ==> #[trigger] cell_at(b, k, 2 - k) == mark {
        assert(cell_at(b, 0, 2 - 0) == mark);
        assert(cell_at(b, 1, 2 - 1) == mark);
        assert(cell_at(b, 2, 2 - 2) == mark);
    }
}

/// A mark wins that fills a row, a column or a diagonal, and no other mark does. It
/// is a draw where nobody fills a line and no cell is free, and undecided where nobody
/// fills a line and a cell is free.
pub proof fn law_three_in_a_row_win(b: Seq<Seq<char>>)
    requires
        is_board(b),
    ensures
        winner_of(b) == Some("X"@) ==> fills_line(b, "X"@),
        winner_of(b) == Some("O"@) ==> fills_line(b, "O"@),
        fills_line(b, "X"@) && !fills_line(b, "O"@) ==> winner_of(b) == Some("X"@),
        fills_line(b, "O"@) && !fills_line(b, "X"@) ==> winner_of(b) == Some("O"@),
        winner_of(b) == Some("draw"@) <==> !fills_line(b, "X"@) && !fills_line(b, "O"@) && forall|
            i: int,
        |
            0 <= i < 9 ==> (#[trigger] b[i]).len() > 0,
        winner_of(b) is None <==> !fills_line(b, "X"@) && !fills_line(b, "O"@) && exists|i: int|
            0 <= i < 9 && (#[trigger] b[i]).len() == 0,
{
    lemma_marks();
    lemma_line_cells(b, "X"@);
    lemma_line_cells(b, "O"@);
    assert(b[0].len() == 0 || b[0] == "X"@ || b[0] == "O"@);
    assert(b[1].len() == 0 || b[1] == "X"@ || b[1] == "O"@);
    assert(b[2].len() == 0 || b[2] == "X"@ || b[2] == "O"@);
    assert(b[3].len() == 0 || b[3] == "X"@ || b[3] == "O"@);
    assert(b[4].len() == 0 || b[4] == "X"@ || b[4] == "O"@);
    assert(b[6].len() == 0 || b[6] == "X"@ || b[6] == "O"@);
}

/// A move is taken exactly of the player whose turn it is, in a game that is on, on a
/// free cell of the board.
pub proof fn law_moves_that_are_taken(g: GameView, session_id: Seq<char>, cell: int)
    requires
        g.board.len() == 9,
        cell >= 0,
    ensures
        moved(g, session_id, cell) is Ok <==> g.status == "playing"@ && (table_get(
            g.players,
            session_id,
        ) matches Some(p) && p.symbol == g.turn) && cell < 9 && g.board[cell].len() == 0,
{
}

/// What a move leads to. Nobody has won before. Three in a row end the game for the
/// player who made the move, a board without free cells ends it as a draw, and in all
/// other cases it is the other player's turn.
pub proof fn law_move_decides_game(g: GameView, session_id: Seq<char>, cell: int, mark: Seq<char>)
    requires
        is_board(g.board),
        cell >= 0,
        g.turn == mark,
        mark == "X"@ || mark == "O"@,
        !fills_line(g.board, "X"@),
        !fills_line(g.board, "O"@),
        moved(g, session_id, cell) is Ok,
    ensures
        ({
            let (after, said) = moved(g, session_id, cell)->Ok_0;
            let full = forall|i: int| 0 <= i < 9 ==> (#[trigger] after.board[i]).len() > 0;
            &&& is_board(after.board)
            &&& after.board[cell] == mark
            &&& forall|i: int|
                0 <= i < 9 && i != cell ==> (#[trigger] after.board[i]) == g.board[i]
            &&& after.players == g.players
            &&& if fills_line(after.board, mark) {
                &&& after.status == "finished"@
                &&& after.winner == Some(mark)
                &&& said == Some(table_get(g.players, session_id)->Some_0.name + " wins!"@)
            } else if full {
                &&& after.status == "finished"@
                &&& after.winner == Some("draw"@)
                &&& said == Some("draw!"@)
            } else {
                &&& after.status == "playing"@
                &&& after.winner == g.winner
                &&& said is None
                &&& mark == "X"@ ==> after.turn == "O"@
                &&& mark == "O"@ ==> after.turn == "X"@
                &&& !fills_line(after.board, "X"@)
                &&& !fills_line(after.board, "O"@)
            }
        }),
{
    lemma_marks();
    let after = moved(g, session_id, cell)->Ok_0.0;
    let b = after.board;
    assert(b == g.board.update(cell, mark));
    assert forall|i: int| 0 <= i < 9 implies (#[trigger] b[i]).len() == 0 || b[i] == "X"@ || b[i]
        == "O"@ by {
        assert(g.board[i].len() == 0 || g.board[i] == "X"@ || g.board[i] == "O"@);
    }
    law_three_in_a_row_win(b);
    let other = if mark == "X"@ {
        "O"@
    } else {
        "X"@
    };
    lemma_line_cells(g.board, other);
    lemma_line_cells(b, other);
    assert(!fills_line(b, other));
}

// ---------------------------------------------------------------------
// the room of a game
// ---------------------------------------------------------------------

/// Who bears a valid token is the user that it names, under the name that it says; any
/// other request is refused as not authenticated.
pub proof fn law_token_names_user(claims: Claims)
    ensures
        authenticated(true, Some(claims)) matches Ok(v) && member(v, "userId"@) == Some(
            JsonView::Str(claims.sub@),
        ) && member(v, "name"@) == Some(JsonView::Str(claims.name@)),
        authenticated(true, None) matches Err(e) && e.code == 525,
        authenticated(false, Some(claims)) matches Err(e) && e.code == 525,
        authenticated(false, None) matches Err(e) && e.code == 525,
{
    reveal_strlit("userId");
    reveal_strlit("name");
    assert("userId"@.len() == 6);
    assert("name"@.len() == 4);
}

/// What clients see of a game: its nine cells in order, whose turn it is, how it stands,
/// and who won, if anybody did.
pub proof fn law_game_is_shown(g: GameView, i: int)
    requires
        0 <= i < g.board.len(),
    ensures
        member(game_json(g), "board"@) matches Some(JsonView::Array(cells)) && cells.len()
            == g.board.len() && cells[i] == JsonView::Str(g.board[i]),
        member(game_json(g), "turn"@) == Some(JsonView::Str(g.turn)),
        member(game_json(g), "status"@) == Some(JsonView::Str(g.status)),
        g.winner matches Some(w) ==> member(game_json(g), "winner"@) == Some(JsonView::Str(w)),
        g.winner is None ==> member(game_json(g), "winner"@) == Some(JsonView::Null),
        member(game_json(g), "players"@) == Some(JsonView::Object(players_json(g.players))),
{
    reveal_strlit("board");
    reveal_strlit("players");
    reveal_strlit("turn");
    reveal_strlit("status");
    reveal_strlit("winner");
    assert("board"@.len() == 5);
    assert("players"@.len() == 7);
    assert("turn"@.len() == 4);
    assert("status"@.len() == 6);
    assert("winner"@.len() == 6);
    assert("status"@[0] != "winner"@[0]);
}

/// Each player is shown under the own session, with symbol and name, and nobody else is.
pub proof fn law_players_are_shown(players: Seq<(Seq<char>, PlayerView)>, session_id: Seq<char>)
    ensures
        ({
            let v = member(JsonView::Object(players_json(players)), session_id);
            &&& table_get(players, session_id) matches Some(p) ==> v is Some && member(
                v->Some_0,
                "symbol"@,
            ) == Some(JsonView::Str(p.symbol)) && member(v->Some_0, "name"@) == Some(
                JsonView::Str(p.name),
            )
            &&& table_get(players, session_id) is None ==> v is None
        }),
    decreases players.len(),
{
    reveal_strlit("symbol");
    reveal_strlit("name");
    assert("symbol"@.len() == 6);
    assert("name"@.len() == 4);
    if players.len() > 0 {
        law_players_are_shown(players.drop_last(), session_id);
        lemma_table_index(players.drop_last(), session_id);
    }
}

/// A new room takes two clients, and shows nine free cells, X's turn, and that it waits
/// for players. It hears of moves, chat and rematches, and of nothing else that it did
/// not hear of before.
pub proof fn law_new_room_is_for_two(c: ContextView, i: int, other: Seq<char>)
    requires
        0 <= i < 9,
        c.routes.last_id + 3 <= u64::MAX,
        other != "move"@,
        other != "chat"@,
        other != "rematch"@,
    ensures
        ({
            let after = opened(c);
            &&& after.max_clients == Some(2u32)
            &&& after.patch_rate == Some(50u64)
            &&& after.updates.last().max_clients == Some(2u32)
            &&& after.clients == c.clients
            &&& after.state matches Some((shown, told)) && shown == told && member(
                shown,
                "turn"@,
            ) == Some(JsonView::Str("X"@)) && member(shown, "status"@) == Some(
                JsonView::Str("waiting"@),
            ) && member(shown, "winner"@) == Some(JsonView::Null) && (member(shown, "board"@)
                matches Some(JsonView::Array(cells)) && cells.len() == 9 && (cells[i] matches
                JsonView::Str(t) && t.len() == 0))
            &&& hears(after, "move"@) == hears(c, "move"@) + 1
            &&& hears(after, "chat"@) == hears(c, "chat"@) + 1
            &&& hears(after, "rematch"@) == hears(c, "rematch"@) + 1
            &&& hears(after, other) == hears(c, other)
        }),
{
    law_game_is_shown(new_game(), i);
    lemma_routes(c, "move"@);
    lemma_routes(c, "chat"@);
    lemma_routes(c, "rematch"@);
    lemma_routes(c, other);
    reveal_strlit("move");
    reveal_strlit("chat");
    reveal_strlit("rematch");
    assert("move"@.len() == 4);
    assert("chat"@.len() == 4);
    assert("rematch"@.len() == 7);
    assert("move"@[0] != "chat"@[0]);
    let cells = member(opened(c).state->Some_0.0, "board"@)->Some_0->Array_0;
    assert(cells[i] == JsonView::Str(new_game().board[i]));
}

/// How many handlers hear messages of a type.
pub open spec fn hears(c: ContextView, t: Seq<char>) -> nat {
    ids_for(c.routes.typed, TypeView::Str(t)).len()
}

proof fn lemma_routes(c: ContextView, t: Seq<char>)
    requires
        c.routes.last_id + 3 <= u64::MAX,
    ensures
        ids_for(game_routes(c.routes).typed, TypeView::Str(t)).len() == hears(c, t) + (if t
            == "move"@ {
            1nat
        } else {
            0
        }) + (if t == "chat"@ {
            1nat
        } else {
            0
        }) + (if t == "rematch"@ {
            1nat
        } else {
            0
        }),
{
    let one = with_typed(c.routes, TypeView::Str("move"@));
    let two = with_typed(one, TypeView::Str("chat"@));
    law_handlers_get_their_messages(c.routes, TypeView::Str("move"@), TypeView::Str(t));
    law_handlers_get_their_messages(one, TypeView::Str("chat"@), TypeView::Str(t));
    law_handlers_get_their_messages(two, TypeView::Str("rematch"@), TypeView::Str(t));
}

/// What a system message is on the wire.
pub open spec fn system_bytes(text: Seq<char>) -> Seq<u8> {
    message_bytes(
        TypeView::Str("system"@),
        JsonView::Object(Map::<Seq<char>, JsonView>::empty().insert("text"@, JsonView::Str(text))),
    )
}

/// A client of another session is the same user.
pub open spec fn is_same_user(x: ClientView, session_id: Seq<char>, user_id: Seq<char>) -> bool {
    x.session_id != session_id && (x.auth matches Some(a) && member(a, "userId"@) == Some(
        JsonView::Str(user_id),
    ))
}

proof fn lemma_stale(cs: Seq<ClientView>, session_id: Seq<char>, user_id: Seq<char>)
    ensures
        stale_client(cs, session_id, user_id) is None <==> forall|i: int|
            0 <= i < cs.len() ==> !is_same_user(#[trigger] cs[i], session_id, user_id),
        stale_client(cs, session_id, user_id) matches Some(from) ==> exists|i: int|
            0 <= i < cs.len() && is_same_user(#[trigger] cs[i], session_id, user_id)
                && cs[i].session_id == from,
    decreases cs.len(),
{
    if cs.len() > 0 {
        let rest = cs.drop_first();
        lemma_stale(rest, session_id, user_id);
        if is_same_user(cs[0], session_id, user_id) {
        } else {
            if stale_client(rest, session_id, user_id) is Some {
                let k = choose|k: int|
                    0 <= k < rest.len() && is_same_user(#[trigger] rest[k], session_id, user_id)
                        && rest[k].session_id == stale_client(rest, session_id, user_id)->Some_0;
                assert(cs[k + 1] == rest[k]);
            } else {
                assert forall|i: int| 0 <= i < cs.len() implies !is_same_user(
                    #[trigger] cs[i],
                    session_id,
                    user_id,
                ) by {
                    if i > 0 {
                        assert(rest[i - 1] == cs[i]);
                    }
                }
            }
        }
    }
}

/// The first player is X and the second is O, whoever of them left before; with two
/// players the game is on. The players who were there keep their symbols, and the board
/// is untouched. Everybody who is in hears of it.
pub proof fn law_players_get_symbols(
    c: ContextView,
    g: GameView,
    session_id: Seq<char>,
    user_id: Seq<char>,
    name: Seq<char>,
    auth: JsonView,
    other: Seq<char>,
    i: int,
)
    requires
        table_get(g.players, session_id) is None,
        g.players.len() < 2,
        other != session_id,
        member(auth, "userId"@) == Some(JsonView::Str(user_id)),
        member(auth, "name"@) == Some(JsonView::Str(name)),
        forall|k: int|
            0 <= k < c.clients.len() ==> !is_same_user(
                #[trigger] c.clients[k],
                session_id,
                user_id,
            ),
        0 <= i < c.clients.len(),
    ensures
        ({
            let (after, game) = joined_game(c, g, session_id, Some(auth));
            let p = table_get(game.players, session_id);
            let taken = g.players.len() == 1 && g.players[0].1.symbol == "X"@;
            &&& p is Some
            &&& p->Some_0.name == name
            &&& taken ==> p->Some_0.symbol == "O"@
            &&& !taken ==> p->Some_0.symbol == "X"@
            &&& table_get(game.players, other) == table_get(g.players, other)
            &&& game.players.len() == g.players.len() + 1
            &&& g.players.len() == 1 ==> game.status == "playing"@
            &&& g.players.len() == 0 ==> game.status == g.status
            &&& game.board == g.board
            &&& game.turn == g.turn
            &&& game.winner == g.winner
            &&& is_in(c.clients[i]) ==> after.clients[i].outbox == c.clients[i].outbox.push(
                OutboundView::Bytes(
                    system_bytes(name + " joined as "@ + p->Some_0.symbol),
                ),
            )
            &&& c.state matches Some((_, told)) ==> after.state == Some((game_json(game), told))
        }),
{
    lemma_stale(c.clients, session_id, user_id);
    lemma_marks();
    let (after, game) = joined_game(c, g, session_id, Some(auth));
    lemma_table_index(g.players, session_id);
    let taken = g.players.len() == 1 && g.players[0].1.symbol == "X"@;
    if taken {
        assert(crate::tictactoe::has_symbol(g.players, "X"@));
    }
    let symbol = if crate::tictactoe::has_symbol(g.players, "X"@) {
        "O"@
    } else {
        "X"@
    };
    lemma_table_set(g.players, session_id, PlayerView { symbol, name });
}

/// A user who is in the room under another session has the seat and the symbol of that
/// session; that session is out of the room.
pub proof fn law_user_has_one_seat(
    c: ContextView,
    g: GameView,
    session_id: Seq<char>,
    user_id: Seq<char>,
    auth: JsonView,
    k: int,
)
    requires
        user_id.len() > 0,
        member(auth, "userId"@) == Some(JsonView::Str(user_id)),
        0 <= k < c.clients.len(),
        is_same_user(c.clients[k], session_id, user_id),
        forall|j: int|
            0 <= j < c.clients.len() && is_same_user(#[trigger] c.clients[j], session_id, user_id)
                ==> c.clients[j].session_id == c.clients[k].session_id,
        table_get(g.players, c.clients[k].session_id) is Some,
    ensures
        ({
            let from = c.clients[k].session_id;
            let (after, game) = joined_game(c, g, session_id, Some(auth));
            &&& table_get(game.players, session_id) == table_get(g.players, from)
            &&& table_get(game.players, from) is None
            &&& game.board == g.board
            &&& game.turn == g.turn
            &&& game.status == g.status
            &&& forall|j: int|
                0 <= j < after.clients.len() ==> (#[trigger] after.clients[j]).session_id != from
        }),
{
    lemma_stale(c.clients, session_id, user_id);
    let from = c.clients[k].session_id;
    assert(stale_client(c.clients, session_id, user_id) is Some);
    assert(stale_client(c.clients, session_id, user_id) == Some(from));
    crate::tictactoe::law_takeover_keeps_symbol(g.players, from, session_id);
    let left = match client_index(c.clients, from) {
        Some(i) => ContextView {
            clients: c.clients.update(
                i,
                crate::client::told_to_leave(c.clients[i], 524, "session moved"@),
            ),
            ..c
        },
        None => c,
    };
    law_others_stay(left.clients, from);
    let rest = crate::room::without_session(left.clients, from);
    lemma_client_index(rest, from);
    let after = joined_game(c, g, session_id, Some(auth)).0;
    assert forall|j: int| 0 <= j < after.clients.len() implies (
    #[trigger] after.clients[j]).session_id != from by {
        assert(rest[j].session_id != from);
    }
}

/// Who leaves is no player any more and everybody else stays one; the game starts over
/// with free cells, X's turn and no winner, and waits while there are not two.
pub proof fn law_leaving_frees_board(
    c: ContextView,
    g: GameView,
    session_id: Seq<char>,
    other: Seq<char>,
    cell: int,
)
    requires
        other != session_id,
        0 <= cell < 9,
    ensures
        ({
            let (after, game) = left_game(c, g, session_id);
            &&& table_get(game.players, session_id) is None
            &&& table_get(game.players, other) == table_get(g.players, other)
            &&& is_board(game.board)
            &&& game.board[cell].len() == 0
            &&& game.turn == "X"@
            &&& game.winner is None
            &&& game.players.len() != 2 ==> game.status == "waiting"@
            &&& c.state matches Some((_, told)) ==> after.state == Some((game_json(game), told))
        }),
{
    lemma_table_remove(g.players, session_id);
}

/// After a finished game the same players start over; before that nothing happens.
pub proof fn law_rematch_starts_over(c: ContextView, g: GameView, cell: int)
    requires
        0 <= cell < 9,
    ensures
        ({
            let (after, game) = rematched(c, g);
            &&& g.status == "finished"@ ==> {
                &&& game.players == g.players
                &&& is_board(game.board)
                &&& game.board[cell].len() == 0
                &&& game.turn == "X"@
                &&& game.winner is None
                &&& g.players.len() == 2 ==> game.status == "playing"@
                &&& c.state matches Some((_, told)) ==> after.state == Some((game_json(game), told))
            }
            &&& g.status != "finished"@ ==> game == g && after == c
        }),
{
}

/// After a move that is taken the game is shown as it is now, to be told with the next
/// patch; one that is not taken changes nothing and is an error of the application.
pub proof fn law_move_is_shown(
    c: ContextView,
    g: GameView,
    session_id: Seq<char>,
    cell: int,
    i: int,
)
    requires
        0 <= i < c.clients.len(),
    ensures
        moved(g, session_id, cell) matches Ok((game, said)) ==> (move_made(c, g, session_id, cell)
            matches Ok((after, x)) && x == game && (c.state matches Some((_, told)) ==> after.state
            == Some((game_json(game), told))) && (said is None ==> after.clients == c.clients) && (
        said matches Some(text) ==> is_in(c.clients[i]) ==> after.clients[i].outbox
            == c.clients[i].outbox.push(OutboundView::Bytes(system_bytes(text))))),
        moved(g, session_id, cell) is Err ==> (move_made(c, g, session_id, cell) matches Err(e)
            && e.code == 526),
{
}

/// What a client says goes to everybody who is in: under the player's name or, of
/// anybody else, the session, and at most its first five hundred characters.
pub proof fn law_chat_reaches_everybody(
    c: ContextView,
    g: GameView,
    session_id: Seq<char>,
    text: Seq<char>,
    i: int,
)
    requires
        0 <= i < c.clients.len(),
    ensures
        ({
            let after = passed_on(c, g, session_id, text);
            let from = match table_get(g.players, session_id) {
                Some(p) => p.name,
                None => session_id,
            };
            let said = if text.len() > 500 {
                text.take(500)
            } else {
                text
            };
            let m = JsonView::Object(
                Map::<Seq<char>, JsonView>::empty().insert("from"@, JsonView::Str(from)).insert(
                    "text"@,
                    JsonView::Str(said),
                ),
            );
            &&& is_in(c.clients[i]) ==> after.clients[i].outbox == c.clients[i].outbox.push(
                OutboundView::Bytes(message_bytes(TypeView::Str("chat"@), m)),
            )
            &&& !is_in(c.clients[i]) ==> after.clients[i] == c.clients[i]
        }),
{
}

/// A player whose connection drops has a minute to come back.
pub proof fn law_dropped_player_has_a_minute(c: ContextView, i: int, now: u64)
    requires
        0 <= i < c.clients.len(),
        unique_sessions(c.clients),
        now + 60000 <= u64::MAX,
        !c.disposing,
        c.clients[i].reconnection_token.len() > 0,
        table_get(c.reconnections, c.clients[i].reconnection_token) is None,
    ensures
        ({
            let x = c.clients[i];
            let after = dropped(c, x.session_id, now);
            table_get(after.reconnections, x.reconnection_token) matches Some(e) && e.session_id
                == x.session_id && e.expires_at == Some((now + 60000) as u64)
        }),
{
    law_allowed_client_may_come_back(c, i, Some(60000), now, c.clients[i]);
}

}
