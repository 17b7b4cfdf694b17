# partystation

The rules of a small party game played on phones around a television: players
join a lobby, the first of them (the host) starts the game, each round hands every prompt to two players, the others vote on
the answers, and after three rounds the screen ranks everyone by points.

- `src/` is the game, verified with Verus: `game` (the server state and every
  step it takes), `questions` (players, prompts and the questions of a round),
  `scoring` (points for votes), `screen` (what the television shows),
  `phase`, `backend`, and `shuffle` (the random order of the prompts, from `rand`).
- `tests/` runs the game on concrete plays.
- `app/` is the program around it: the web socket server, the announcement on
  the local network, the one-second timer and the Slint window.
