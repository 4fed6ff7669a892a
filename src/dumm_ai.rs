use crate::game::MonteCarloGame;
use vstd::prelude::*;

verus! {

/// A baseline player: it takes a move that ends the game where there is one, else a move after
/// which the opponent cannot end it, else any move; it picks among them at random.
pub struct DummAi;

/// Move `m` is legal in `g` and ends the game.
pub open spec fn finishes<G: MonteCarloGame>(g: G, m: G::MOVE) -> bool {
    g.spec_apply(m) is Ok && g.spec_apply(m)->Ok_0.1 is Some
}

/// Move `m` is legal in `g`, and no legal reply ends the game.
pub open spec fn is_safe<G: MonteCarloGame>(g: G, m: G::MOVE) -> bool {
    g.spec_apply(m) is Ok && {
        let next = g.spec_apply(m)->Ok_0.0;
        forall|k: int| 0 <= k < next.spec_moves().len() ==> !finishes(next, #[trigger] next.spec_moves()[k])
    }
}

/// The safe moves among the first `n` legal moves of `g`, in order.
pub open spec fn safe_prefix<G: MonteCarloGame>(g: G, n: nat) -> Seq<G::MOVE>
    decreases n,
{
    if n == 0 {
        Seq::empty()
    } else {
        let rest = safe_prefix(g, (n - 1) as nat);
        let m = g.spec_moves()[n - 1];
        if is_safe(g, m) {
            rest.push(m)
        } else {
            rest
        }
    }
}

/// The first legal move that ends the game, if any.
pub fn winning_move<G: MonteCarloGame>(game: &G) -> (r: Option<G::MOVE>)
    requires
        game.valid(),
    ensures
        match r {
            Some(m) => game.spec_moves().contains(m) && finishes(*game, m),
            None => forall|k: int|
                0 <= k < game.spec_moves().len() ==> !finishes(*game, #[trigger] game.spec_moves()[k]),
        },
{
    let moves = game.moves();
    let mut k: usize = 0;
    while k < moves.len()
        invariant
            game.valid(),
            moves@ == game.spec_moves(),
            k <= moves@.len(),
            forall|j: int| 0 <= j < k ==> !finishes(*game, #[trigger] moves@[j]),
        decreases moves@.len() - k,
    {
        let m = moves[k];
        match game.make_move(&m) {
            Ok((_, Some(_))) => {
                proof {
                    assert(moves@[k as int] == m);
                }
                return Some(m);
            },
            _ => {},
        }
        k += 1;
    }
    None
}

/// The legal moves after which the opponent has no move that ends the game, in order.
pub fn safe_moves<G: MonteCarloGame>(game: &G) -> (r: Vec<G::MOVE>)
    requires
        game.valid(),
    ensures
        r@ == safe_prefix(*game, game.spec_moves().len()),
{
    let moves = game.moves();
    let mut r: Vec<G::MOVE> = Vec::new();
    let mut k: usize = 0;
    while k < moves.len()
        invariant
            game.valid(),
            moves@ == game.spec_moves(),
            k <= moves@.len(),
            r@ == safe_prefix(*game, k as nat),
        decreases moves@.len() - k,
    {
        let m = moves[k];
        match game.make_move(&m) {
            Ok((next, _)) => {
                if winning_move(&next).is_none() {
                    r.push(m);
                }
            },
            Err(()) => {},
        }
        k += 1;
    }
    r
}

impl DummAi {
    /// The move the baseline player makes, where `random` stands for a number drawn at random:
    /// a move that ends the game if there is one; else the safe move at `random` modulo their
    /// number; else the legal move at `random` modulo their number; `None` without legal moves.
    pub fn choose_move<G: MonteCarloGame>(game: &G, random: usize) -> (r: Option<G::MOVE>)
        requires
            game.valid(),
        ensures
            (exists|k: int| 0 <= k < game.spec_moves().len() && finishes(*game, #[trigger] game.spec_moves()[k]))
                ==> r is Some && finishes(*game, r->Some_0),
            (forall|k: int| 0 <= k < game.spec_moves().len() ==> !finishes(*game, #[trigger] game.spec_moves()[k])) ==> {
                let safe = safe_prefix(*game, game.spec_moves().len());
                let all = game.spec_moves();
                if safe.len() > 0 {
                    r == Some(safe[random as int % safe.len() as int])
                } else if all.len() > 0 {
                    r == Some(all[random as int % all.len() as int])
                } else {
                    r is None
                }
            },
    {
        match winning_move(game) {
            Some(m) => {
                return Some(m);
            },
            None => {},
        }
        let safe = safe_moves(game);
        if safe.len() > 0 {
            return Some(safe[random % safe.len()]);
        }
        let moves = game.moves();
        if moves.len() > 0 {
            return Some(moves[random % moves.len()]);
        }
        None
    }
}

} // verus!
