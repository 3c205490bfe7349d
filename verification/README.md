# Solitare of Olympus

A Klondike-style patience game with temple gold: build the four temples
(foundations) from Ace to King, earn gold for every card that reaches a
temple, pay gold to turn the waste over.

The rules are a library written in Verus: every operation carries a contract
and is proved against it.

- `src/game.rs`: cards, piles, the game state and its moves, each move stated
  as a transition of a mathematical model of the game.
- `src/deck.rs`: the fifty-two cards, the seeded shuffle and its seed; the
  caller reads the wall clock (the system clock, or `Date.now()` in the
  browser) for the seed used when the operating system has no randomness.
- `src/properties.rs`: what holds across moves: no card is ever created or
  lost, foundations stay built in suit from Ace up, column tops stay face up,
  the gold accounting, the order of the stock across draws and turn-overs,
  the deal's layout, each column face-down cards under face-up ones, and a
  full pass through the stock.
- `src/session.rs`: a play session: what each player action does to the game
  and how the status line words it, Auto and All To Temple, and the endings
  (victory, out of gold, Zeus' Vision, no play left).
- `src/motion.rs`: which cards fly after a move and what shows beneath a card
  that is away.
- `src/gesture.rs`: telling a tap from a drag, and why a drag stays one.
- `src/keys.rs`: which key plays which command.
- `src/layout.rs`: how a tableau column fans out.
- `src/text.rs`: numbers in decimal text.
- `app/`: the browser front end (Yew), with the on-screen geometry and timing.
