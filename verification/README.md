# zhangmenriji

The rules of a month-by-month wuxia sect-management game, written in Verus:
every rule is an executable Rust function whose behaviour is stated in its
`requires`/`ensures` contract and proved.

## Layout

- `src/` — the verified library.
  - `model.rs`, `game.rs`, `sect.rs`, `ledger.rs`, `text.rs`: the state of a
    save (disciples, halls, stores, the chronicle) and the small tools the
    rules share.
  - `country.rs`: the four realms' prosperity and order and their monthly drift.
  - `sect.rs`, `lineage.rs`, `arts.rs`: hall effectiveness, upkeep, rank
    quotas, master links and lineage generations, research caps, heritage arts.
  - `disciple.rs`, `recruit.rs`: disciples' condition, growth, desertion and
    the generation of newcomers.
  - `event.rs`, `effects.rs`: the weighted world events and what their
    effects do to a save.
  - `economy.rs`: the herb hall's furnace, stipends, rations, treatment and
    the wear of the halls.
  - `management.rs`, `appointments.rs`, `recruitment.rs`, `brewing.rs`,
    `requests.rs`: the head's requests and the single entry point that
    checks, handles and records them.
  - `elder_duties.rs`, `elder_month.rs`: the hall elders' monthly duties.
  - `milestones.rs`, `actions.rs`: lineage and department milestones, and the
    weights and scales of the disciples' actions.
  - `interaction.rs`: the month's encounters between sects (sparring, trade,
    border quarrels, defections, the courts and the frontier kingdoms).
  - `decision.rs`, `alliance.rs`, `diplomacy.rs`: the head's own decisions
    (recruiting, commissions, rest, research), dealings with allied sects
    (aid, trade) and an envoy's errands (courtesy visits, hosting an ally's
    elders, joint patrols, asking another sect for a manual).
  - `creation.rs`: the sect's martial research: a new art of the head's own
    making, a round of joint study of a public art, and working out the next
    of the sect's own arts, and a disciple's gift of a private book to the
    library.
  - `month_end.rs`: the opening of a month (a world event that waits for the
    head's answer), the answer itself, the close (morale drift, healing,
    desertion, an empty treasury, the sect's fall), the turn (year-end lines,
    victory, calendar, chronicle) and `finish_month`, which runs the realms'
    drift, the close, in December the tournament, and the turn in that order.
  - `tournament.rs`: the year-end tournament: lineups, seeding, the
    single-elimination bracket of three-bout matches, final places, rewards
    and the record kept in the save.
  - `journey.rs`: journeys: opened on departure with their task,
    destination, difficulty and encounter fixed, encounters on the road, and
    the settlement on return, paid once.
  - `jobs.rs`: a month's work of a pair (a lesson, a spar) or of a lone
    disciple at home (tempering, inner cultivation, meditation, rest, upkeep,
    building, production, trade, gathering): what it costs and teaches them,
    what it brings the sect, and the sect's receipt of it.
  - `advance.rs`: the month's advance: the opening (an interactive event
    pauses the month), the ordinary happening or the head's answer to the
    waiting event, and the settlement that follows.
  - `laws.rs`: properties that span several functions or calls.
- `tests/` — ordinary Rust tests run against the compiled library.
- `app/` — serde forms of the world events and their JSON round trip.

Trusted, not proved: `rand`'s `StdRng` type and five small wrappers around
it in `chance.rs` (uniform draws, a yes/no chance and a raw 64-bit draw), and one wrapper that
reads the clock which stamps new disciples' ids (`recruit.rs`). Their
contracts say only what `rand`'s source and std's documentation show.

The martial-arts catalog is not part of this library: where a rule needs
what the catalog rates (combat scores, a traveller's effective aptitudes,
the experience a fight gives an art, the manuals to be found, the names and
difficulties of arts, the root skill and labels of a new art, the sect's own
arts still to be worked out), the caller passes the values in.

Bounds in the contracts are those of the machine: where the rules add or
multiply the game's numbers in `i32` or `i64`, a contract asks that the sum
fit (at most 10,000 disciples, fewer than 1024 sects, a treasury with room
for a month's income, realm and traveller numbers far inside `i32`), since
the rules would overflow there. The month's advance checks the settlement's
bounds as it goes and stops short where they fail (see its contract).

Not covered: the training, study and teaching decisions and the catalog's
request kinds (assigning actions and tasks, preparing skills, issuing
items), which rest on the catalog's skill growth; the reading and practice
work of a lone disciple; the application of a month's work to the disciples
themselves; the disciples' choice of their monthly actions; the skill growth
a tournament gives its fighters; and the payroll, interactions and upkeep
between the realms' drift and the close of the month, which callers run with
the functions of those modules.
