# engine

The opening of a trading card game and the copying of spells, written in Rust and verified with
Verus. Every function states in its contract exactly what it does to the game, and every
contract is proved.

## Layout

- `src/types/`: the game as data. Each type that owns heap data has a model, a plain mathematical
  value, and contracts speak of models. `GameState` is modelled by `StateModel`, whose `valid`
  is the invariant of a game: every zone lists exactly the objects that are in it.
- `src/game/mulligan.rs`: opening hands, mulligans, the cards that go to the bottom, and the
  abilities that function before the first turn.
- `src/game/mulligan_laws.rs`, `src/game/arrival_order.rs`: what holds of mulligans as a whole,
  among it that no card is lost and that it makes no difference whose answer arrives first,
  except for which cards two players redraw from one source of random numbers.
- `src/game/effects/`: how abilities resolve. `copy_spell.rs` copies spells and abilities on the
  stack, `copy_laws.rs` says what holds of every copy.
- `src/game/engine.rs`: takes the answers of players, one at a time.
- `src/util/`: the random numbers behind shuffling, and numbers as text.
- `tests/`: the library as its callers see it.
