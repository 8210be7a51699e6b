use crate::duration::Duration;
use crate::index::CellIndex;
use crate::skill::{lemma_scaled_time_le, Fleetfoot, Skill, MAX_SCALED_SECONDS};
use smallvec::SmallVec;
use vstd::prelude::*;

verus! {

/// Seconds of one step between adjacent cells.
pub const STANDARD_MOVE_SECONDS: u64 = 180;

/// Seconds of one step between the center and a border.
pub const CENTRAL_MOVE_SECONDS: u64 = 10;

/// The intrinsic cost of one hop.
#[derive(Clone, Copy, Debug, PartialEq, Eq, Structural, PartialOrd, Ord)]
pub enum EdgeCost {
    NoMove,
    CentralMove,
    StandardMove,
    Caravan(CaravanCost),
    ScrollOfEscape,
    ScrollOfEscapeHQ,
    ScrollOfEscapeForum,
}

#[derive(Clone, Copy, Debug, PartialEq, Eq, Structural, PartialOrd, Ord)]
pub struct CaravanCost {
    pub time: Duration,
    pub money: u32,
}

/// The cost of one line of an itinerary, which may stand for several hops.
#[derive(Clone, Copy, Debug, PartialEq, Eq, Structural, PartialOrd, Ord)]
pub enum AggregatedCost {
    NoMove,
    CentralMove { time: Duration },
    StandardMove { time: Duration, legs: u32, fleetfoot: Fleetfoot },
    Caravan(CaravanCost),
    ScrollOfEscape { money: u32 },
    ScrollOfEscapeHQ { money: u32 },
    ScrollOfEscapeForum { money: u32 },
}

/// One visible step of an itinerary.
#[derive(Clone, Copy, Debug, PartialEq, Eq, Structural, PartialOrd, Ord)]
pub struct Command {
    pub aggregated_cost: AggregatedCost,
    pub from: CellIndex,
    pub to: CellIndex,
}

/// The prices of the three scrolls, set per game session.
#[derive(Clone, Copy, Debug, PartialEq, Eq, Structural)]
pub struct ScrollCosts {
    pub scroll_of_escape: u32,
    pub scroll_of_escape_hq: u32,
    pub scroll_of_escape_forum: u32,
}

/// An itinerary's lines, kept in a small vector that stays inline for short paths.
#[verifier::external_body]
#[derive(Debug)]
pub struct Commands {
    inner: SmallVec<[Command; 5]>,
}

/// The commands that an itinerary holds, in order.
pub uninterp spec fn command_list(v: Commands) -> Seq<Command>;

/// Relies on `SmallVec::new`: an empty vector.
#[verifier::external_body]
fn commands_new() -> (r: Commands)
    ensures
        command_list(r) == Seq::<Command>::empty(),
{
    Commands { inner: SmallVec::new() }
}

/// Relies on `SmallVec::push`: appends at the end; it only panics when the length
/// would overflow.
#[verifier::external_body]
fn commands_push(v: &mut Commands, c: Command)
    requires
        command_list(*old(v)).len() < usize::MAX,
    ensures
        command_list(*final(v)) == command_list(*old(v)).push(c),
{
    v.inner.push(c)
}

/// Relies on `SmallVec::pop`: removes and returns the last element.
#[verifier::external_body]
fn commands_pop(v: &mut Commands) -> (r: Option<Command>)
    ensures
        command_list(*old(v)).len() == 0 ==> r is None && command_list(*final(v)) == command_list(
            *old(v),
        ),
        command_list(*old(v)).len() > 0 ==> r == Some(command_list(*old(v)).last())
            && command_list(*final(v)) == command_list(*old(v)).drop_last(),
{
    v.inner.pop()
}

/// Relies on `SmallVec::as_slice`: the elements in order.
#[verifier::external_body]
fn commands_slice(v: &Commands) -> (r: &[Command])
    ensures
        r@ == command_list(*v),
{
    v.inner.as_slice()
}

/// Relies on `Clone` of `SmallVec`: a vector of the same elements.
#[verifier::external_body]
fn commands_clone(v: &Commands) -> (r: Commands)
    ensures
        command_list(r) == command_list(*v),
{
    Commands { inner: v.inner.clone() }
}

/// The running cost of a path and its itinerary.
#[derive(Debug)]
pub struct TotalCost {
    pub legs: u32,
    pub money: u32,
    pub time: Duration,
    pub commands: Commands,
}

impl EdgeCost {
    pub open spec fn spec_legs(self) -> nat {
        match self {
            EdgeCost::StandardMove => 1,
            _ => 0,
        }
    }

    pub open spec fn spec_money(self, costs: ScrollCosts) -> nat {
        match self {
            EdgeCost::Caravan(c) => c.money as nat,
            EdgeCost::ScrollOfEscape => costs.scroll_of_escape as nat,
            EdgeCost::ScrollOfEscapeHQ => costs.scroll_of_escape_hq as nat,
            EdgeCost::ScrollOfEscapeForum => costs.scroll_of_escape_forum as nat,
            _ => 0,
        }
    }

    pub open spec fn spec_time(self) -> nat {
        match self {
            EdgeCost::StandardMove => STANDARD_MOVE_SECONDS as nat,
            EdgeCost::CentralMove => CENTRAL_MOVE_SECONDS as nat,
            EdgeCost::Caravan(c) => c.time.seconds as nat,
            _ => 0,
        }
    }

    pub fn legs(&self) -> (r: u32)
        ensures
            r == self.spec_legs(),
    {
        match self {
            EdgeCost::StandardMove => 1,
            _ => 0,
        }
    }

    pub fn money(&self, costs: ScrollCosts) -> (r: u32)
        ensures
            r == self.spec_money(costs),
    {
        match self {
            EdgeCost::Caravan(c) => c.money,
            EdgeCost::ScrollOfEscape => costs.scroll_of_escape,
            EdgeCost::ScrollOfEscapeHQ => costs.scroll_of_escape_hq,
            EdgeCost::ScrollOfEscapeForum => costs.scroll_of_escape_forum,
            _ => 0,
        }
    }

    pub fn time(&self) -> (r: Duration)
        ensures
            r.seconds == self.spec_time(),
    {
        match self {
            EdgeCost::StandardMove => Duration::seconds(STANDARD_MOVE_SECONDS),
            EdgeCost::CentralMove => Duration::seconds(CENTRAL_MOVE_SECONDS),
            EdgeCost::Caravan(c) => c.time,
            _ => Duration::zero(),
        }
    }
}

impl AggregatedCost {
    pub open spec fn spec_legs(self) -> nat {
        match self {
            AggregatedCost::StandardMove { legs, .. } => legs as nat,
            _ => 0,
        }
    }

    pub open spec fn spec_money(self) -> nat {
        match self {
            AggregatedCost::Caravan(c) => c.money as nat,
            AggregatedCost::ScrollOfEscape { money } => money as nat,
            AggregatedCost::ScrollOfEscapeHQ { money } => money as nat,
            AggregatedCost::ScrollOfEscapeForum { money } => money as nat,
            _ => 0,
        }
    }

    /// The time as stored, before any skill applies.
    pub open spec fn spec_raw_time(self) -> nat {
        match self {
            AggregatedCost::CentralMove { time } => time.seconds as nat,
            AggregatedCost::StandardMove { time, .. } => time.seconds as nat,
            AggregatedCost::Caravan(c) => c.time.seconds as nat,
            _ => 0,
        }
    }

    /// The time that the line takes; walking is shortened by the walker's skill.
    pub open spec fn spec_time(self) -> nat {
        match self {
            AggregatedCost::StandardMove { time, fleetfoot, .. } => match fleetfoot.spec_time(
                time,
            ) {
                Some(t) => t.seconds as nat,
                None => time.seconds as nat,
            },
            _ => self.spec_raw_time(),
        }
    }

    /// The line that a single hop of kind `e` makes.
    pub open spec fn spec_of_edge(e: EdgeCost, costs: ScrollCosts, fleetfoot: Fleetfoot) -> Self {
        match e {
            EdgeCost::NoMove => AggregatedCost::NoMove,
            EdgeCost::CentralMove => AggregatedCost::CentralMove {
                time: Duration { seconds: CENTRAL_MOVE_SECONDS },
            },
            EdgeCost::StandardMove => AggregatedCost::StandardMove {
                time: Duration { seconds: STANDARD_MOVE_SECONDS },
                legs: 1,
                fleetfoot,
            },
            EdgeCost::Caravan(c) => AggregatedCost::Caravan(c),
            EdgeCost::ScrollOfEscape => AggregatedCost::ScrollOfEscape {
                money: costs.scroll_of_escape,
            },
            EdgeCost::ScrollOfEscapeHQ => AggregatedCost::ScrollOfEscapeHQ {
                money: costs.scroll_of_escape_hq,
            },
            EdgeCost::ScrollOfEscapeForum => AggregatedCost::ScrollOfEscapeForum {
                money: costs.scroll_of_escape_forum,
            },
        }
    }

    pub fn legs(&self) -> (r: u32)
        ensures
            r == self.spec_legs(),
    {
        match self {
            AggregatedCost::StandardMove { legs, .. } => *legs,
            _ => 0,
        }
    }

    pub fn money(&self) -> (r: u32)
        ensures
            r == self.spec_money(),
    {
        match self {
            AggregatedCost::Caravan(c) => c.money,
            AggregatedCost::ScrollOfEscape { money } => *money,
            AggregatedCost::ScrollOfEscapeHQ { money } => *money,
            AggregatedCost::ScrollOfEscapeForum { money } => *money,
            _ => 0,
        }
    }

    pub fn raw_time(&self) -> (r: Duration)
        ensures
            r.seconds == self.spec_raw_time(),
    {
        match self {
            AggregatedCost::CentralMove { time } => *time,
            AggregatedCost::StandardMove { time, .. } => *time,
            AggregatedCost::Caravan(c) => c.time,
            _ => Duration::zero(),
        }
    }

    pub fn time(&self) -> (r: Duration)
        requires
            self.spec_raw_time() <= MAX_SCALED_SECONDS,
        ensures
            r.seconds == self.spec_time(),
            r.seconds <= self.spec_raw_time(),
    {
        match self {
            AggregatedCost::StandardMove { time, fleetfoot, .. } => {
                proof {
                    lemma_scaled_time_le(Fleetfoot::ratio_of(fleetfoot.0), *time);
                }
                match fleetfoot.time(*time) {
                    Some(t) => t,
                    None => *time,
                }
            },
            AggregatedCost::CentralMove { time } => *time,
            AggregatedCost::Caravan(c) => c.time,
            _ => Duration::zero(),
        }
    }

    pub fn from_edge(e: EdgeCost, costs: ScrollCosts, fleetfoot: Fleetfoot) -> (r: Self)
        ensures
            r == AggregatedCost::spec_of_edge(e, costs, fleetfoot),
    {
        match e {
            EdgeCost::NoMove => AggregatedCost::NoMove,
            EdgeCost::CentralMove => AggregatedCost::CentralMove {
                time: Duration::seconds(CENTRAL_MOVE_SECONDS),
            },
            EdgeCost::StandardMove => AggregatedCost::StandardMove {
                time: Duration::seconds(STANDARD_MOVE_SECONDS),
                legs: 1,
                fleetfoot,
            },
            EdgeCost::Caravan(c) => AggregatedCost::Caravan(c),
            EdgeCost::ScrollOfEscape => AggregatedCost::ScrollOfEscape {
                money: costs.scroll_of_escape,
            },
            EdgeCost::ScrollOfEscapeHQ => AggregatedCost::ScrollOfEscapeHQ {
                money: costs.scroll_of_escape_hq,
            },
            EdgeCost::ScrollOfEscapeForum => AggregatedCost::ScrollOfEscapeForum {
                money: costs.scroll_of_escape_forum,
            },
        }
    }
}

/// Sum of `f` over the commands.
pub open spec fn sum_by(s: Seq<Command>, f: spec_fn(Command) -> nat) -> nat
    decreases s.len(),
{
    if s.len() == 0 {
        0
    } else {
        sum_by(s.drop_last(), f) + f(s.last())
    }
}

pub open spec fn legs_of(c: Command) -> nat {
    c.aggregated_cost.spec_legs()
}

pub open spec fn money_of(c: Command) -> nat {
    c.aggregated_cost.spec_money()
}

pub open spec fn time_of(c: Command) -> nat {
    c.aggregated_cost.spec_time()
}

pub open spec fn legs_fn() -> spec_fn(Command) -> nat {
    |c: Command| legs_of(c)
}

pub open spec fn money_fn() -> spec_fn(Command) -> nat {
    |c: Command| money_of(c)
}

pub open spec fn time_fn() -> spec_fn(Command) -> nat {
    |c: Command| time_of(c)
}

/// Every line's stored time can be scaled, and the three totals fit in 32 bits.
pub open spec fn totals_fit(s: Seq<Command>) -> bool {
    &&& forall|i: int| 0 <= i < s.len() ==> (#[trigger] s[i]).aggregated_cost.spec_raw_time()
        <= MAX_SCALED_SECONDS
    &&& sum_by(s, legs_fn()) <= u32::MAX
    &&& sum_by(s, money_fn()) <= u32::MAX
    &&& sum_by(s, time_fn()) <= u32::MAX
}

/// The itinerary after one more hop of kind `e` from `from` to `to`: the
/// starting no-move line is replaced, a walk extends a walk, anything else
/// is a new line.
pub open spec fn spec_extend(
    s: Seq<Command>,
    e: EdgeCost,
    costs: ScrollCosts,
    fleetfoot: Fleetfoot,
    from: CellIndex,
    to: CellIndex,
) -> Seq<Command> {
    if s.len() > 0 && s.last().aggregated_cost is NoMove {
        s.drop_last().push(
            Command {
                aggregated_cost: AggregatedCost::spec_of_edge(e, costs, fleetfoot),
                from: s.last().from,
                to,
            },
        )
    } else if s.len() > 0 && s.last().aggregated_cost is StandardMove && e is StandardMove {
        match s.last().aggregated_cost {
            AggregatedCost::StandardMove { time, legs, fleetfoot: f } => s.drop_last().push(
                Command {
                    aggregated_cost: AggregatedCost::StandardMove {
                        time: Duration { seconds: (time.seconds + STANDARD_MOVE_SECONDS) as u64 },
                        legs: (legs + 1) as u32,
                        fleetfoot: f,
                    },
                    from: s.last().from,
                    to,
                },
            ),
            _ => s,
        }
    } else {
        s.push(
            Command { aggregated_cost: AggregatedCost::spec_of_edge(e, costs, fleetfoot), from, to },
        )
    }
}

/// One more hop keeps the itinerary representable: a merged walk's leg count
/// fits, the totals fit, and so does the number of lines.
pub open spec fn extend_fits(
    s: Seq<Command>,
    e: EdgeCost,
    costs: ScrollCosts,
    fleetfoot: Fleetfoot,
    from: CellIndex,
    to: CellIndex,
) -> bool {
    &&& !(s.len() > 0 && e is StandardMove && s.last().aggregated_cost is StandardMove && (
    s.last().aggregated_cost.spec_legs() >= u32::MAX || s.last().aggregated_cost.spec_raw_time()
        + STANDARD_MOVE_SECONDS > MAX_SCALED_SECONDS))
    &&& totals_fit(spec_extend(s, e, costs, fleetfoot, from, to))
    &&& spec_extend(s, e, costs, fleetfoot, from, to).len() <= usize::MAX
}

pub proof fn lemma_sum_prefix(s: Seq<Command>, f: spec_fn(Command) -> nat, k: int)
    requires
        0 <= k <= s.len(),
    ensures
        sum_by(s.take(k), f) <= sum_by(s, f),
    decreases s.len(),
{
    if k < s.len() {
        lemma_sum_prefix(s.drop_last(), f, k);
        assert(s.drop_last().take(k) =~= s.take(k));
    } else {
        assert(s.take(k) =~= s);
    }
}

impl Clone for TotalCost {
    fn clone(&self) -> Self {
        self.duplicate()
    }
}

impl TotalCost {
    pub open spec fn cmds(self) -> Seq<Command> {
        command_list(self.commands)
    }

    /// The totals are the sums over the itinerary, and they fit.
    pub open spec fn wf(self) -> bool {
        &&& totals_fit(self.cmds())
        &&& self.legs == sum_by(self.cmds(), legs_fn())
        &&& self.money == sum_by(self.cmds(), money_fn())
        &&& self.time.seconds == sum_by(self.cmds(), time_fn())
    }

    /// The cost of standing at `from`: one no-move line and nothing spent.
    pub fn new(from: CellIndex) -> (r: TotalCost)
        ensures
            r.wf(),
            r.legs == 0,
            r.money == 0,
            r.time.seconds == 0,
            r.cmds() == seq![Command { aggregated_cost: AggregatedCost::NoMove, from, to: from }],
    {
        let mut commands = commands_new();
        let c = Command { aggregated_cost: AggregatedCost::NoMove, from, to: from };
        commands_push(&mut commands, c);
        let r = TotalCost { legs: 0, money: 0, time: Duration::zero(), commands };
        proof {
            let s = r.cmds();
            assert(s.drop_last() =~= Seq::<Command>::empty());
            assert(sum_by(s.drop_last(), legs_fn()) == 0);
            assert(sum_by(s.drop_last(), money_fn()) == 0);
            assert(sum_by(s.drop_last(), time_fn()) == 0);
            assert(sum_by(s, legs_fn()) == 0);
            assert(sum_by(s, money_fn()) == 0);
            assert(sum_by(s, time_fn()) == 0);
        }
        r
    }

    /// A copy with the same totals and itinerary.
    pub fn duplicate(&self) -> (r: TotalCost)
        ensures
            r.legs == self.legs,
            r.money == self.money,
            r.time == self.time,
            r.cmds() == self.cmds(),
    {
        TotalCost {
            legs: self.legs,
            money: self.money,
            time: self.time,
            commands: commands_clone(&self.commands),
        }
    }

    /// The cost after one more hop of kind `e` from `from` to `to`, with the
    /// totals summed again over the new itinerary; `None` where a total or a
    /// line's time would not fit.
    pub fn checked_add(
        &self,
        e: EdgeCost,
        costs: ScrollCosts,
        fleetfoot: Fleetfoot,
        from: CellIndex,
        to: CellIndex,
    ) -> (r: Option<TotalCost>)
        ensures
            r is Some <==> extend_fits(self.cmds(), e, costs, fleetfoot, from, to),
            r matches Some(t) ==> t.wf() && t.cmds() == spec_extend(
                self.cmds(),
                e,
                costs,
                fleetfoot,
                from,
                to,
            ),
    {
        let ghost ext = spec_extend(self.cmds(), e, costs, fleetfoot, from, to);
        let mut commands = commands_clone(&self.commands);
        let n = commands_slice(&commands).len();
        let agg = AggregatedCost::from_edge(e, costs, fleetfoot);
        let mut appended = true;
        if n > 0 {
            let last = commands_slice(&commands)[n - 1];
            assert(self.cmds().last() == last);
            match last.aggregated_cost {
                AggregatedCost::NoMove => {
                    commands_pop(&mut commands);
                    commands_push(&mut commands, Command { aggregated_cost: agg, from: last.from, to });
                    appended = false;
                },
                AggregatedCost::StandardMove { time, legs, fleetfoot: f } => {
                    if e == EdgeCost::StandardMove {
                        if legs == u32::MAX || time.seconds > MAX_SCALED_SECONDS - STANDARD_MOVE_SECONDS {
                            return None;
                        }
                        let merged = AggregatedCost::StandardMove {
                            time: Duration::seconds(time.seconds + STANDARD_MOVE_SECONDS),
                            legs: legs + 1,
                            fleetfoot: f,
                        };
                        commands_pop(&mut commands);
                        commands_push(&mut commands, Command { aggregated_cost: merged, from: last.from, to });
                        appended = false;
                    }
                },
                _ => {},
            }
        }
        if appended {
            if n == usize::MAX {
                return None;
            }
            commands_push(&mut commands, Command { aggregated_cost: agg, from, to });
        }
        assert(command_list(commands) =~= ext);
        let sl = commands_slice(&commands);
        let mut legs: u64 = 0;
        let mut money: u64 = 0;
        let mut time: u64 = 0;
        let mut i: usize = 0;
        while i < sl.len()
            invariant
                i <= sl@.len(),
                sl@ == ext,
                ext == spec_extend(self.cmds(), e, costs, fleetfoot, from, to),
                legs == sum_by(ext.take(i as int), legs_fn()),
                money == sum_by(ext.take(i as int), money_fn()),
                time == sum_by(ext.take(i as int), time_fn()),
                legs <= u32::MAX,
                money <= u32::MAX,
                time <= u32::MAX,
                forall|j: int| 0 <= j < i ==> (#[trigger] ext[j]).aggregated_cost.spec_raw_time()
                    <= MAX_SCALED_SECONDS,
            decreases sl@.len() - i,
        {
            let a = sl[i].aggregated_cost;
            assert(ext[i as int].aggregated_cost == a);
            if a.raw_time().seconds > MAX_SCALED_SECONDS {
                return None;
            }
            let t = a.time();
            legs = legs + a.legs() as u64;
            money = money + a.money() as u64;
            time = time + t.seconds;
            proof {
                let p = ext.take(i + 1);
                assert(p.drop_last() =~= ext.take(i as int));
                assert(p.last() == ext[i as int]);
                assert(sum_by(p, legs_fn()) == sum_by(ext.take(i as int), legs_fn()) + legs_of(ext[i as int]));
                assert(sum_by(p, money_fn()) == sum_by(ext.take(i as int), money_fn()) + money_of(ext[i as int]));
                assert(sum_by(p, time_fn()) == sum_by(ext.take(i as int), time_fn()) + time_of(ext[i as int]));
            }
            i = i + 1;
            if legs > u32::MAX as u64 || money > u32::MAX as u64 || time > u32::MAX as u64 {
                proof {
                    lemma_sum_prefix(ext, legs_fn(), i as int);
                    lemma_sum_prefix(ext, money_fn(), i as int);
                    lemma_sum_prefix(ext, time_fn(), i as int);
                }
                return None;
            }
        }
        assert(ext.take(i as int) =~= ext);
        Some(TotalCost { legs: legs as u32, money: money as u32, time: Duration::seconds(time), commands })
    }

    /// Adds one hop of kind `e` from `from` to `to`.
    pub fn add_assign(
        &mut self,
        e: EdgeCost,
        costs: ScrollCosts,
        fleetfoot: Fleetfoot,
        from: CellIndex,
        to: CellIndex,
    )
        requires
            extend_fits(old(self).cmds(), e, costs, fleetfoot, from, to),
        ensures
            final(self).wf(),
            final(self).cmds() == spec_extend(old(self).cmds(), e, costs, fleetfoot, from, to),
    {
        if let Some(t) = self.checked_add(e, costs, fleetfoot, from, to) {
            *self = t;
        }
    }

    /// The cost after one more hop of kind `e` from `from` to `to`.
    pub fn add(
        &self,
        e: EdgeCost,
        costs: ScrollCosts,
        fleetfoot: Fleetfoot,
        from: CellIndex,
        to: CellIndex,
    ) -> (r: TotalCost)
        requires
            extend_fits(self.cmds(), e, costs, fleetfoot, from, to),
        ensures
            r.wf(),
            r.cmds() == spec_extend(self.cmds(), e, costs, fleetfoot, from, to),
    {
        let mut r = self.duplicate();
        r.add_assign(e, costs, fleetfoot, from, to);
        r
    }
}

impl TotalCost {
    /// The itinerary's lines.
    pub fn commands(&self) -> (r: &[Command])
        ensures
            r@ == self.cmds(),
    {
        commands_slice(&self.commands)
    }
}

/// The itinerary of a path that has not moved from `x`.
pub open spec fn standing(x: CellIndex) -> Seq<Command> {
    seq![Command { aggregated_cost: AggregatedCost::NoMove, from: x, to: x }]
}

/// Three walking steps in a row from a standing start make one line that spans
/// all three, with three legs and three steps' time (exactly that time where
/// the walker has no skill).
pub proof fn lemma_three_walks_merge(
    x: CellIndex,
    a: CellIndex,
    b: CellIndex,
    c: CellIndex,
    costs: ScrollCosts,
    fleetfoot: Fleetfoot,
)
    ensures
        spec_extend(
            spec_extend(
                spec_extend(standing(x), EdgeCost::StandardMove, costs, fleetfoot, x, a),
                EdgeCost::StandardMove,
                costs,
                fleetfoot,
                a,
                b,
            ),
            EdgeCost::StandardMove,
            costs,
            fleetfoot,
            b,
            c,
        ) == seq![
            Command {
                aggregated_cost: AggregatedCost::StandardMove {
                    time: Duration { seconds: (3 * STANDARD_MOVE_SECONDS) as u64 },
                    legs: 3,
                    fleetfoot,
                },
                from: x,
                to: c,
            },
        ],
        fleetfoot.0 == 0 ==> (AggregatedCost::StandardMove {
            time: Duration { seconds: (3 * STANDARD_MOVE_SECONDS) as u64 },
            legs: 3,
            fleetfoot,
        }).spec_time() == 3 * STANDARD_MOVE_SECONDS,
{
    let s1 = spec_extend(standing(x), EdgeCost::StandardMove, costs, fleetfoot, x, a);
    assert(standing(x).drop_last() =~= Seq::<Command>::empty());
    assert(s1.len() == 1);
    let s2 = spec_extend(s1, EdgeCost::StandardMove, costs, fleetfoot, a, b);
    assert(s1.drop_last() =~= Seq::<Command>::empty());
    assert(s2.len() == 1);
    let s3 = spec_extend(s2, EdgeCost::StandardMove, costs, fleetfoot, b, c);
    assert(s2.drop_last() =~= Seq::<Command>::empty());
    assert(s3 =~= seq![
        Command {
            aggregated_cost: AggregatedCost::StandardMove {
                time: Duration { seconds: (3 * STANDARD_MOVE_SECONDS) as u64 },
                legs: 3,
                fleetfoot,
            },
            from: x,
            to: c,
        },
    ]);
}

/// A walk after a walk extends the last line: the itinerary keeps its length,
/// the line keeps its start, and it gains one leg.
pub proof fn lemma_walk_extends_walk(
    s: Seq<Command>,
    costs: ScrollCosts,
    fleetfoot: Fleetfoot,
    from: CellIndex,
    to: CellIndex,
)
    requires
        s.len() > 0,
        s.last().aggregated_cost is StandardMove,
    ensures
        spec_extend(s, EdgeCost::StandardMove, costs, fleetfoot, from, to).len() == s.len(),
        spec_extend(s, EdgeCost::StandardMove, costs, fleetfoot, from, to).last().from
            == s.last().from,
        spec_extend(s, EdgeCost::StandardMove, costs, fleetfoot, from, to).last().to == to,
        s.last().aggregated_cost.spec_legs() < u32::MAX ==> spec_extend(
            s,
            EdgeCost::StandardMove,
            costs,
            fleetfoot,
            from,
            to,
        ).last().aggregated_cost.spec_legs() == s.last().aggregated_cost.spec_legs() + 1,
{
}

/// A scroll never joins the line before it: after anything but the standing
/// start it adds a line of its own.
pub proof fn lemma_scroll_not_merged(
    s: Seq<Command>,
    e: EdgeCost,
    costs: ScrollCosts,
    fleetfoot: Fleetfoot,
    from: CellIndex,
    to: CellIndex,
)
    requires
        s.len() > 0,
        !(s.last().aggregated_cost is NoMove),
        e is ScrollOfEscape || e is ScrollOfEscapeHQ || e is ScrollOfEscapeForum,
    ensures
        spec_extend(s, e, costs, fleetfoot, from, to) == s.push(
            Command { aggregated_cost: AggregatedCost::spec_of_edge(e, costs, fleetfoot), from, to },
        ),
        spec_extend(s, e, costs, fleetfoot, from, to).len() == s.len() + 1,
{
}

/// A walk then a scroll of escape from a standing start are two lines.
pub proof fn lemma_walk_then_scroll(
    x: CellIndex,
    a: CellIndex,
    b: CellIndex,
    costs: ScrollCosts,
    fleetfoot: Fleetfoot,
)
    ensures
        spec_extend(
            spec_extend(standing(x), EdgeCost::StandardMove, costs, fleetfoot, x, a),
            EdgeCost::ScrollOfEscape,
            costs,
            fleetfoot,
            a,
            b,
        ).len() == 2,
{
    let s1 = spec_extend(standing(x), EdgeCost::StandardMove, costs, fleetfoot, x, a);
    assert(standing(x).drop_last() =~= Seq::<Command>::empty());
    assert(s1.len() == 1);
}

} // verus!
