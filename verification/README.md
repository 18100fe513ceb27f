# Chess Trainer

A 3D chess trainer: you play Stockfish on a board, a second, full-strength
Stockfish grades every move, named opening theory is tracked as the game goes,
and an opening can be drilled move by move.

The library (`src/`) is verified with Verus. It holds everything the trainer
decides: the game and its takebacks, grading and the per-stage accuracy
breakdown, the opening book and its ranking of book moves, the drill, the
reading of engine output, the text of every panel, how each board tile is
drawn, and the binary STL layout and vertex clustering. The rules of chess
come from `shakmaty`, through a handful of trusted functions at the end of
`src/chess.rs`, each from FEN and move text to text. Three more trusted
functions wrap std: `push_char` (`String::push`) and `lowercase`
(`str::to_lowercase`) in `src/text.rs`, and `keep_up_to` (`HashSet::retain`)
in `src/game.rs`.

`app/` is the Bevy program around it: window, scene and panels, the engine
process and its worker thread, the accuracy formula (floating point) and the
float side of mesh building. It hands the library plain values and draws what
comes back.

| Module | Responsibility |
|---|---|
| `text` | Characters, words, lines, numbers and joins |
| `chess` | Squares, moves, FEN reading, and the trusted rules |
| `engine` | Scores, UCI output and commands |
| `game` | Selection, moves, takebacks, grading |
| `review` | Stage classification and the per-stage summary |
| `openings` | The book: loading, lookup, repertoires, ranked continuations |
| `drill` | The opening drill |
| `flow` | The frame loop's decisions: book tracking, engine requests and replies, keys, clicks |
| `ui` | The panels' text and the tiles' looks |
| `stl` | Binary STL layout, clustering, collapsed triangles |

The app reads its assets (`openings.tsv`, the Lichess chess-openings
database, and the six piece models) from `CHESS_ASSETS`, default `assets`.
