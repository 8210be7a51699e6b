use crate::cost::{legs_fn, money_fn, sum_by, time_fn, AggregatedCost, Command, TotalCost};
use crate::index::CellIndex;
use std::cmp::Ordering;
use vstd::prelude::*;

verus! {

/// Lexicographic order of integer sequences; a proper prefix comes first.
pub open spec fn lex(a: Seq<int>, b: Seq<int>) -> Ordering
    decreases a.len(),
{
    if a.len() == 0 && b.len() == 0 {
        Ordering::Equal
    } else if a.len() == 0 {
        Ordering::Less
    } else if b.len() == 0 {
        Ordering::Greater
    } else if a[0] < b[0] {
        Ordering::Less
    } else if a[0] > b[0] {
        Ordering::Greater
    } else {
        lex(a.drop_first(), b.drop_first())
    }
}

pub open spec fn flip(o: Ordering) -> Ordering {
    match o {
        Ordering::Less => Ordering::Greater,
        Ordering::Equal => Ordering::Equal,
        Ordering::Greater => Ordering::Less,
    }
}

pub open spec fn ints(s: Seq<u64>) -> Seq<int> {
    s.map_values(|v: u64| v as int)
}

pub proof fn lemma_lex_equal(a: Seq<int>, b: Seq<int>)
    ensures
        (lex(a, b) == Ordering::Equal) <==> (a == b),
    decreases a.len(),
{
    if a.len() > 0 && b.len() > 0 && a[0] == b[0] {
        lemma_lex_equal(a.drop_first(), b.drop_first());
        if a.drop_first() == b.drop_first() {
            assert(a =~= seq![a[0]] + a.drop_first());
            assert(b =~= seq![b[0]] + b.drop_first());
        }
    } else if a.len() == 0 && b.len() == 0 {
        assert(a =~= b);
    }
}

pub proof fn lemma_lex_flip(a: Seq<int>, b: Seq<int>)
    ensures
        lex(a, b) == flip(lex(b, a)),
    decreases a.len(),
{
    if a.len() > 0 && b.len() > 0 && a[0] == b[0] {
        lemma_lex_flip(a.drop_first(), b.drop_first());
    }
}

pub proof fn lemma_lex_trans(a: Seq<int>, b: Seq<int>, c: Seq<int>)
    ensures
        lex(a, b) != Ordering::Greater && lex(b, c) != Ordering::Greater ==> lex(a, c)
            != Ordering::Greater,
        lex(a, b) == Ordering::Less && lex(b, c) != Ordering::Greater ==> lex(a, c)
            == Ordering::Less,
        lex(a, b) != Ordering::Greater && lex(b, c) == Ordering::Less ==> lex(a, c)
            == Ordering::Less,
    decreases a.len(),
{
    if a.len() > 0 && b.len() > 0 && c.len() > 0 {
        lemma_lex_trans(a.drop_first(), b.drop_first(), c.drop_first());
    }
}

/// After a common-length head, the tails decide only where the heads are equal.
pub proof fn lemma_lex_concat(x: Seq<int>, y: Seq<int>, u: Seq<int>, v: Seq<int>)
    requires
        x.len() == u.len(),
    ensures
        lex(x + y, u + v) == if lex(x, u) != Ordering::Equal {
            lex(x, u)
        } else {
            lex(y, v)
        },
    decreases x.len(),
{
    if x.len() == 0 {
        assert(x + y =~= y);
        assert(u + v =~= v);
    } else {
        assert((x + y).drop_first() =~= x.drop_first() + y);
        assert((u + v).drop_first() =~= u.drop_first() + v);
        lemma_lex_concat(x.drop_first(), y, u.drop_first(), v);
    }
}

pub open spec fn cell_key(c: CellIndex) -> Seq<int> {
    match c {
        CellIndex::Center => seq![0, 0, 0, 0],
        CellIndex::Homeland { homeland, pos } => seq![
            1,
            homeland.ord() as int,
            pos.x as int,
            pos.y as int,
        ],
        CellIndex::Border { border, shift } => seq![2, border.ord() as int, shift as int, 0],
    }
}

pub open spec fn aggregated_key(a: AggregatedCost) -> Seq<int> {
    match a {
        AggregatedCost::NoMove => seq![0, 0, 0, 0],
        AggregatedCost::CentralMove { time } => seq![1, time.seconds as int, 0, 0],
        AggregatedCost::StandardMove { time, legs, fleetfoot } => seq![
            2,
            time.seconds as int,
            legs as int,
            fleetfoot.0 as int,
        ],
        AggregatedCost::Caravan(c) => seq![3, c.time.seconds as int, c.money as int, 0],
        AggregatedCost::ScrollOfEscape { money } => seq![4, money as int, 0, 0],
        AggregatedCost::ScrollOfEscapeHQ { money } => seq![5, money as int, 0, 0],
        AggregatedCost::ScrollOfEscapeForum { money } => seq![6, money as int, 0, 0],
    }
}

/// A command as integers, ordered as its kind, then its fields, then its ends.
pub open spec fn command_key(c: Command) -> Seq<int> {
    aggregated_key(c.aggregated_cost) + cell_key(c.from) + cell_key(c.to)
}

pub open spec fn commands_key(s: Seq<Command>) -> Seq<int>
    decreases s.len(),
{
    if s.len() == 0 {
        Seq::empty()
    } else {
        command_key(s[0]) + commands_key(s.drop_first())
    }
}

pub proof fn lemma_cell_key_injective(a: CellIndex, b: CellIndex)
    requires
        cell_key(a) == cell_key(b),
    ensures
        a == b,
{
    assert(cell_key(a)[0] == cell_key(b)[0]);
    assert(cell_key(a)[1] == cell_key(b)[1]);
    assert(cell_key(a)[2] == cell_key(b)[2]);
    assert(cell_key(a)[3] == cell_key(b)[3]);
}

pub proof fn lemma_command_key_injective(a: Command, b: Command)
    requires
        command_key(a) == command_key(b),
    ensures
        a == b,
{
    let ka = command_key(a);
    let kb = command_key(b);
    assert(ka.subrange(0, 4) =~= aggregated_key(a.aggregated_cost));
    assert(kb.subrange(0, 4) =~= aggregated_key(b.aggregated_cost));
    assert(ka.subrange(4, 8) =~= cell_key(a.from));
    assert(kb.subrange(4, 8) =~= cell_key(b.from));
    assert(ka.subrange(8, 12) =~= cell_key(a.to));
    assert(kb.subrange(8, 12) =~= cell_key(b.to));
    lemma_cell_key_injective(a.from, b.from);
    lemma_cell_key_injective(a.to, b.to);
    let x = aggregated_key(a.aggregated_cost);
    let y = aggregated_key(b.aggregated_cost);
    assert(x[0] == y[0] && x[1] == y[1] && x[2] == y[2] && x[3] == y[3]);
}

pub proof fn lemma_commands_key_len(s: Seq<Command>)
    ensures
        commands_key(s).len() == 12 * s.len(),
    decreases s.len(),
{
    if s.len() > 0 {
        lemma_commands_key_len(s.drop_first());
    }
}

pub proof fn lemma_commands_key_injective(a: Seq<Command>, b: Seq<Command>)
    requires
        a.len() == b.len(),
        commands_key(a) == commands_key(b),
    ensures
        a == b,
    decreases a.len(),
{
    if a.len() > 0 {
        let ka = command_key(a[0]);
        let kb = command_key(b[0]);
        let ra = commands_key(a.drop_first());
        let rb = commands_key(b.drop_first());
        assert((ka + ra).subrange(0, 12) =~= ka);
        assert((kb + rb).subrange(0, 12) =~= kb);
        lemma_command_key_injective(a[0], b[0]);
        assert((ka + ra).subrange(12, (ka + ra).len() as int) =~= ra);
        assert((kb + rb).subrange(12, (kb + rb).len() as int) =~= rb);
        lemma_commands_key_injective(a.drop_first(), b.drop_first());
        assert(a =~= seq![a[0]] + a.drop_first());
        assert(b =~= seq![b[0]] + b.drop_first());
    }
}

/// Compares two four-element keys lexicographically.
fn lex4(a: &[u64; 4], b: &[u64; 4]) -> (r: Ordering)
    ensures
        r == lex(ints(a@), ints(b@)),
{
    let ghost sa = ints(a@);
    let ghost sb = ints(b@);
    let mut i: usize = 0;
    assert(sa.skip(0) =~= sa);
    assert(sb.skip(0) =~= sb);
    while i < 4
        invariant
            i <= 4,
            sa == ints(a@),
            sb == ints(b@),
            sa.len() == 4,
            sb.len() == 4,
            lex(sa, sb) == lex(sa.skip(i as int), sb.skip(i as int)),
        decreases 4 - i,
    {
        assert(sa.skip(i as int)[0] == a[i as int] as int);
        assert(sb.skip(i as int)[0] == b[i as int] as int);
        assert(sa.skip(i as int).drop_first() =~= sa.skip(i + 1));
        assert(sb.skip(i as int).drop_first() =~= sb.skip(i + 1));
        if a[i] < b[i] {
            return Ordering::Less;
        } else if a[i] > b[i] {
            return Ordering::Greater;
        }
        i = i + 1;
    }
    assert(sa.skip(4) =~= Seq::<int>::empty());
    assert(sb.skip(4) =~= Seq::<int>::empty());
    Ordering::Equal
}

fn cell_key_exec(c: &CellIndex) -> (r: [u64; 4])
    ensures
        ints(r@) == cell_key(*c),
{
    let r: [u64; 4] = match c {
        CellIndex::Center => [0, 0, 0, 0],
        CellIndex::Homeland { homeland, pos } => [
            1,
            homeland.index() as u64,
            pos.x as u64,
            pos.y as u64,
        ],
        CellIndex::Border { border, shift } => [2, border_index(border), *shift as u64, 0],
    };
    assert(ints(r@) =~= cell_key(*c));
    r
}

fn border_index(b: &crate::index::Border) -> (r: u64)
    ensures
        r == b.ord(),
{
    match b {
        crate::index::Border::BR => 0,
        crate::index::Border::RG => 1,
        crate::index::Border::GY => 2,
        crate::index::Border::YB => 3,
    }
}

fn aggregated_key_exec(a: &AggregatedCost) -> (r: [u64; 4])
    ensures
        ints(r@) == aggregated_key(*a),
{
    let r: [u64; 4] = match a {
        AggregatedCost::NoMove => [0, 0, 0, 0],
        AggregatedCost::CentralMove { time } => [1, time.seconds, 0, 0],
        AggregatedCost::StandardMove { time, legs, fleetfoot } => [
            2,
            time.seconds,
            *legs as u64,
            fleetfoot.0 as u64,
        ],
        AggregatedCost::Caravan(c) => [3, c.time.seconds, c.money as u64, 0],
        AggregatedCost::ScrollOfEscape { money } => [4, *money as u64, 0, 0],
        AggregatedCost::ScrollOfEscapeHQ { money } => [5, *money as u64, 0, 0],
        AggregatedCost::ScrollOfEscapeForum { money } => [6, *money as u64, 0, 0],
    };
    assert(ints(r@) =~= aggregated_key(*a));
    r
}

/// Orders two commands by kind, fields, start and end.
pub fn command_cmp(a: &Command, b: &Command) -> (r: Ordering)
    ensures
        r == lex(command_key(*a), command_key(*b)),
{
    let ka = aggregated_key_exec(&a.aggregated_cost);
    let kb = aggregated_key_exec(&b.aggregated_cost);
    let fa = cell_key_exec(&a.from);
    let fb = cell_key_exec(&b.from);
    let ta = cell_key_exec(&a.to);
    let tb = cell_key_exec(&b.to);
    proof {
        lemma_lex_concat(ints(ka@) + ints(fa@), ints(ta@), ints(kb@) + ints(fb@), ints(tb@));
        lemma_lex_concat(ints(ka@), ints(fa@), ints(kb@), ints(fb@));
    }
    assert(command_key(*a) == ints(ka@) + ints(fa@) + ints(ta@));
    assert(command_key(*b) == ints(kb@) + ints(fb@) + ints(tb@));
    let c = lex4(&ka, &kb);
    match c {
        Ordering::Equal => {},
        _ => {
            return c;
        },
    }
    let c = lex4(&fa, &fb);
    match c {
        Ordering::Equal => {},
        _ => {
            return c;
        },
    }
    lex4(&ta, &tb)
}

/// A single measure of a path's cost.
#[derive(Clone, Copy, Debug, PartialEq, Eq, Structural)]
pub enum CostComparator {
    Legs,
    Time,
    Money,
}

/// A complete order on path costs: three measures in turn, then the number of
/// lines, then the lines themselves.
#[derive(Clone, Copy, Debug, PartialEq, Eq, Structural)]
pub struct CostOrder {
    pub first: CostComparator,
    pub second: CostComparator,
    pub third: CostComparator,
}

impl CostComparator {
    pub open spec fn spec_metric(self, t: TotalCost) -> int {
        match self {
            CostComparator::Legs => t.legs as int,
            CostComparator::Time => t.time.seconds as int,
            CostComparator::Money => t.money as int,
        }
    }

    pub open spec fn spec_probable_second_target(self) -> CostComparator {
        match self {
            CostComparator::Legs => CostComparator::Time,
            CostComparator::Time => CostComparator::Legs,
            CostComparator::Money => CostComparator::Legs,
        }
    }

    /// The one measure that is neither `a` nor `b`.
    pub open spec fn spec_remaining(a: CostComparator, b: CostComparator) -> CostComparator {
        if a != CostComparator::Legs && b != CostComparator::Legs {
            CostComparator::Legs
        } else if a != CostComparator::Time && b != CostComparator::Time {
            CostComparator::Time
        } else {
            CostComparator::Money
        }
    }

    /// The second measure (`c`, or a fixed fallback where `c` repeats this one)
    /// and the third.
    pub open spec fn spec_eval_next(self, c: CostComparator) -> (CostComparator, CostComparator) {
        let second = if self == c {
            c.spec_probable_second_target()
        } else {
            c
        };
        (second, CostComparator::spec_remaining(self, second))
    }

    pub open spec fn spec_name(self) -> Seq<char> {
        match self {
            CostComparator::Legs => seq!['L', 'e', 'g', 's'],
            CostComparator::Time => seq!['T', 'i', 'm', 'e'],
            CostComparator::Money => seq!['M', 'o', 'n', 'e', 'y'],
        }
    }

    pub fn metric(&self, t: &TotalCost) -> (r: u64)
        ensures
            r == self.spec_metric(*t),
    {
        match self {
            CostComparator::Legs => t.legs as u64,
            CostComparator::Time => t.time.seconds,
            CostComparator::Money => t.money as u64,
        }
    }

    pub fn probable_second_target(&self) -> (r: CostComparator)
        ensures
            r == self.spec_probable_second_target(),
            r != *self,
    {
        match self {
            CostComparator::Legs => CostComparator::Time,
            CostComparator::Time => CostComparator::Legs,
            CostComparator::Money => CostComparator::Legs,
        }
    }

    pub fn eval_next(&self, c: CostComparator) -> (r: (CostComparator, CostComparator))
        ensures
            r == self.spec_eval_next(c),
            r.0 != *self && r.1 != *self && r.0 != r.1,
    {
        let c = if *self == c {
            c.probable_second_target()
        } else {
            c
        };
        let third = match (self, c) {
            (CostComparator::Legs, CostComparator::Time) => CostComparator::Money,
            (CostComparator::Legs, _) => CostComparator::Time,
            (CostComparator::Time, CostComparator::Legs) => CostComparator::Money,
            (CostComparator::Time, _) => CostComparator::Legs,
            (CostComparator::Money, CostComparator::Legs) => CostComparator::Time,
            (CostComparator::Money, _) => CostComparator::Legs,
        };
        (c, third)
    }

    pub fn as_str(&self) -> (r: &'static str)
        ensures
            r@ == self.spec_name(),
    {
        proof {
            reveal_strlit("Legs");
            reveal_strlit("Time");
            reveal_strlit("Money");
        }
        match self {
            CostComparator::Legs => "Legs",
            CostComparator::Time => "Time",
            CostComparator::Money => "Money",
        }
    }

    /// The complete order that ranks by this measure, then by `c2`.
    pub fn and_then(&self, c2: CostComparator) -> (r: CostOrder)
        ensures
            r.first == *self,
            (r.second, r.third) == self.spec_eval_next(c2),
            r.wf(),
    {
        let (second, third) = self.eval_next(c2);
        CostOrder { first: *self, second, third }
    }
}

impl CostOrder {
    /// The three measures are all different.
    pub open spec fn wf(self) -> bool {
        &&& self.first != self.second
        &&& self.first != self.third
        &&& self.second != self.third
    }

    pub open spec fn key(self, t: TotalCost) -> Seq<int> {
        seq![
            self.first.spec_metric(t),
            self.second.spec_metric(t),
            self.third.spec_metric(t),
            t.cmds().len() as int,
        ] + commands_key(t.cmds())
    }

    pub open spec fn spec_compare(self, a: TotalCost, b: TotalCost) -> Ordering {
        lex(self.key(a), self.key(b))
    }

    pub fn compare(&self, a: &TotalCost, b: &TotalCost) -> (r: Ordering)
        ensures
            r == self.spec_compare(*a, *b),
    {
        let sa = a.commands();
        let sb = b.commands();
        let pa: [u64; 4] = [
            self.first.metric(a),
            self.second.metric(a),
            self.third.metric(a),
            sa.len() as u64,
        ];
        let pb: [u64; 4] = [
            self.first.metric(b),
            self.second.metric(b),
            self.third.metric(b),
            sb.len() as u64,
        ];
        let ghost ka = commands_key(a.cmds());
        let ghost kb = commands_key(b.cmds());
        proof {
            assert(ints(pa@) =~= seq![
                self.first.spec_metric(*a),
                self.second.spec_metric(*a),
                self.third.spec_metric(*a),
                a.cmds().len() as int,
            ]);
            assert(ints(pb@) =~= seq![
                self.first.spec_metric(*b),
                self.second.spec_metric(*b),
                self.third.spec_metric(*b),
                b.cmds().len() as int,
            ]);
            lemma_lex_concat(ints(pa@), ka, ints(pb@), kb);
        }
        let c = lex4(&pa, &pb);
        match c {
            Ordering::Equal => {},
            _ => {
                return c;
            },
        }
        proof {
            lemma_lex_equal(ints(pa@), ints(pb@));
            assert(ints(pa@)[3] == ints(pb@)[3]);
        }
        let n = sa.len();
        let mut i: usize = 0;
        assert(sa@.skip(0) =~= sa@);
        assert(sb@.skip(0) =~= sb@);
        while i < n
            invariant
                i <= n,
                n == sa@.len(),
                n == sb@.len(),
                sa@ == a.cmds(),
                sb@ == b.cmds(),
                self.spec_compare(*a, *b) == lex(
                    commands_key(sa@.skip(i as int)),
                    commands_key(sb@.skip(i as int)),
                ),
            decreases n - i,
        {
            proof {
                let ra = sa@.skip(i as int);
                let rb = sb@.skip(i as int);
                assert(ra[0] == sa@[i as int]);
                assert(rb[0] == sb@[i as int]);
                assert(ra.drop_first() =~= sa@.skip(i + 1));
                assert(rb.drop_first() =~= sb@.skip(i + 1));
                lemma_lex_concat(
                    command_key(sa@[i as int]),
                    commands_key(sa@.skip(i + 1)),
                    command_key(sb@[i as int]),
                    commands_key(sb@.skip(i + 1)),
                );
            }
            let c = command_cmp(&sa[i], &sb[i]);
            match c {
                Ordering::Equal => {},
                _ => {
                    return c;
                },
            }
            i = i + 1;
        }
        proof {
            assert(sa@.skip(n as int) =~= Seq::<Command>::empty());
            assert(sb@.skip(n as int) =~= Seq::<Command>::empty());
        }
        Ordering::Equal
    }
}

impl CostComparator {
    /// The measure summed over an itinerary.
    pub open spec fn cmds_metric(self, s: Seq<Command>) -> int {
        match self {
            CostComparator::Legs => sum_by(s, legs_fn()) as int,
            CostComparator::Time => sum_by(s, time_fn()) as int,
            CostComparator::Money => sum_by(s, money_fn()) as int,
        }
    }
}

impl CostOrder {
    /// The key of a cost whose totals are the sums over the itinerary `s`.
    pub open spec fn cmds_key(self, s: Seq<Command>) -> Seq<int> {
        seq![
            self.first.cmds_metric(s),
            self.second.cmds_metric(s),
            self.third.cmds_metric(s),
            s.len() as int,
        ] + commands_key(s)
    }
}

/// A cost whose totals are the sums over its itinerary is ranked by the itinerary.
pub proof fn lemma_key_of_sums(o: CostOrder, t: TotalCost)
    requires
        t.wf(),
    ensures
        o.key(t) == o.cmds_key(t.cmds()),
{
    assert(o.key(t) =~= o.cmds_key(t.cmds()));
}

/// For a fixed pair of measures the order is total: swapping the arguments
/// flips the result, it is transitive, and it calls two costs equal only when
/// their totals and their itineraries are the same.
pub proof fn lemma_cost_order_total(o: CostOrder, a: TotalCost, b: TotalCost, c: TotalCost)
    requires
        o.wf(),
    ensures
        o.spec_compare(a, b) == flip(o.spec_compare(b, a)),
        o.spec_compare(a, b) != Ordering::Greater && o.spec_compare(b, c) != Ordering::Greater
            ==> o.spec_compare(a, c) != Ordering::Greater,
        o.spec_compare(a, b) == Ordering::Less && o.spec_compare(b, c) != Ordering::Greater
            ==> o.spec_compare(a, c) == Ordering::Less,
        o.spec_compare(a, b) == Ordering::Equal ==> a.cmds() == b.cmds() && a.legs == b.legs
            && a.money == b.money && a.time == b.time,
{
    lemma_lex_flip(o.key(a), o.key(b));
    lemma_lex_trans(o.key(a), o.key(b), o.key(c));
    lemma_lex_equal(o.key(a), o.key(b));
    if o.spec_compare(a, b) == Ordering::Equal {
        let ka = o.key(a);
        let kb = o.key(b);
        assert(ka[0] == kb[0] && ka[1] == kb[1] && ka[2] == kb[2] && ka[3] == kb[3]);
        assert(ka.skip(4) =~= commands_key(a.cmds()));
        assert(kb.skip(4) =~= commands_key(b.cmds()));
        lemma_commands_key_injective(a.cmds(), b.cmds());
        assert(a.time.seconds == b.time.seconds);
    }
}

} // verus!
