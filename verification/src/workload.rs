//! Planning of the randomized trace workload: a tree of worker tasks whose
//! shape, yields and sleeps follow from one seed.
use vstd::prelude::*;
use vstd::string::*;
use crate::scheduler::SchedulerType;

verus! {

/// Seed used when none is configured.
pub const DEFAULT_GENERIC_TRACE_SEED: u64 = 0x4d59_5df4_d0f3_3173;
pub const MAX_TOTAL_TASKS: u8 = 8;
pub const MAX_DEPTH: u8 = 3;
pub const MAX_CHILDREN_PER_TASK: u8 = 2;
pub const MAX_SLEEP_PER_TASK: u8 = 1;
pub const MAX_YIELDS_PER_TASK: u8 = 2;
/// Priority of the trace workload's tasks.
pub const TRACE_PRIORITY: u8 = 31;

/// The scheduler of the trace workload's tasks.
pub fn trace_scheduler() -> (s: SchedulerType)
    ensures
        s == SchedulerType::PrioritizedFIFO(TRACE_PRIORITY),
{
    SchedulerType::PrioritizedFIFO(TRACE_PRIORITY)
}

/// One step of the xorshift generator.
pub open spec fn xorshift(x: u64) -> u64 {
    let a = x ^ (x << 13u64);
    let b = a ^ (a >> 7u64);
    b ^ (b << 17u64)
}

/// What `below(upper)` draws from generator state `state`: the number and
/// the new state.
pub open spec fn below_draw(state: u64, upper: u8) -> (u8, u64) {
    if upper <= 1 { (0, state) } else { ((xorshift(state) % (upper as u64)) as u8, xorshift(state)) }
}

/// `n` sleeps of 1 to 3 ms drawn from `state`: the sleeps and the new state.
pub open spec fn sleep_draws(state: u64, n: nat) -> (Seq<u64>, u64)
    decreases n,
{
    if n == 0 {
        (Seq::empty(), state)
    } else {
        let (prev, s) = sleep_draws(state, (n - 1) as nat);
        let (m, s2) = below_draw(s, 3);
        (prev.push((1 + m) as u64), s2)
    }
}

/// A worker's own actions drawn from `state`: the yields, the sleeps and the
/// new state.
pub open spec fn local_draws(state: u64, force_sleep: bool) -> (u8, Seq<u64>, u64) {
    let (yields, s1) = below_draw(state, (MAX_YIELDS_PER_TASK + 1) as u8);
    let (sleep, s2) = if force_sleep { (true, s1) } else { (xorshift(s1) & 1 == 0, xorshift(s1)) };
    let (sleeps, s3) = sleep_draws(s2, if sleep { MAX_SLEEP_PER_TASK as nat } else { 0 });
    (yields, sleeps, s3)
}

/// The number of children drawn for a worker in `state` from generator state
/// `rng`, and the new generator state.
pub open spec fn child_count_draw(state: GenericWorkloadState, rng: u64) -> (u8, u64) {
    if state.depth >= MAX_DEPTH || state.remaining_descendants == 0 {
        (0, rng)
    } else {
        let max_children = if state.remaining_descendants < MAX_CHILDREN_PER_TASK { state.remaining_descendants } else { MAX_CHILDREN_PER_TASK };
        let min_children: u8 = if state.depth == 0 { 1 } else { 0 };
        let (d, r) = below_draw(rng, (max_children - min_children + 1) as u8);
        ((min_children + d) as u8, r)
    }
}

/// The first `k` children drawn for a worker in `state` once its child count
/// `count` is known and the generator is at `rng`: the children, the budget
/// left for later children, and the generator state.
pub open spec fn children_draws(state: GenericWorkloadState, count: u8, rng: u64, k: nat) -> (Seq<ChildPlan>, u8, u64)
    decreases k,
{
    if k == 0 {
        (Seq::empty(), (state.remaining_descendants - count) as u8, rng)
    } else {
        let (prev, rem, r) = children_draws(state, count, rng, (k - 1) as nat);
        let (child_remaining, r1) = if state.depth + 1 < MAX_DEPTH && rem > 0 { below_draw(r, (rem + 1) as u8) } else { (0u8, r) };
        let seed = xorshift(r1) ^ (((k - 1) as u64) << 16u64);
        let r2 = xorshift(r1);
        let yield_after = xorshift(r2) & 1 == 0;
        let child = ChildPlan {
            state: GenericWorkloadState { seed, depth: (state.depth + 1) as u8, remaining_descendants: child_remaining },
            yield_after,
        };
        (prev.push(child), (rem - child_remaining) as u8, xorshift(r2))
    }
}

/// A xorshift pseudo-random generator.
pub struct WorkloadRng {
    pub state: u64,
}

impl WorkloadRng {
    pub fn new(seed: u64) -> (r: WorkloadRng)
        ensures
            r.state == seed,
    {
        WorkloadRng { state: seed }
    }

    /// Advances the generator and returns its new state.
    pub fn next_u64(&mut self) -> (x: u64)
        ensures
            x == xorshift(old(self).state),
            final(self).state == x,
    {
        let mut x = self.state;
        x = x ^ (x << 13u64);
        x = x ^ (x >> 7u64);
        x = x ^ (x << 17u64);
        self.state = x;
        x
    }

    /// A number below `upper_exclusive` (0 when that is at most 1, without
    /// advancing the generator).
    pub fn below(&mut self, upper_exclusive: u8) -> (v: u8)
        ensures
            upper_exclusive <= 1 ==> v == 0 && final(self).state == old(self).state,
            upper_exclusive > 1 ==> final(self).state == xorshift(old(self).state)
                && v == (xorshift(old(self).state) % (upper_exclusive as u64)) as u8,
            upper_exclusive > 1 ==> v < upper_exclusive,
    {
        if upper_exclusive <= 1 {
            0
        } else {
            let x = self.next_u64();
            (x % upper_exclusive as u64) as u8
        }
    }

    /// A fair coin: whether the next number is even.
    pub fn bool(&mut self) -> (b: bool)
        ensures
            final(self).state == xorshift(old(self).state),
            b == (xorshift(old(self).state) & 1 == 0),
    {
        self.next_u64() & 1 == 0
    }
}

/// Where a worker stands in the tree.
#[derive(Debug, Clone, Copy, PartialEq, Eq, Structural)]
pub struct GenericWorkloadState {
    pub seed: u64,
    pub depth: u8,
    pub remaining_descendants: u8,
}

/// The generator of a worker: its seed mixed with its depth and its budget
/// of descendants.
pub open spec fn worker_seed(state: GenericWorkloadState) -> u64 {
    state.seed ^ ((state.depth as u64) << 48u64) ^ ((state.remaining_descendants as u64) << 32u64)
}

pub fn worker_rng(state: GenericWorkloadState) -> (r: WorkloadRng)
    ensures
        r.state == worker_seed(state),
{
    WorkloadRng::new(state.seed ^ ((state.depth as u64) << 48u64) ^ ((state.remaining_descendants as u64) << 32u64))
}

/// Number of children of a worker: none at the depth limit or without a
/// budget; otherwise between the minimum (one for the root, zero below) and
/// the budget capped at the per-task maximum, drawn from the generator.
pub fn choose_child_count(state: GenericWorkloadState, rng: &mut WorkloadRng) -> (n: u8)
    ensures
        (state.depth >= MAX_DEPTH || state.remaining_descendants == 0) ==> n == 0 && final(rng).state == old(rng).state,
        !(state.depth >= MAX_DEPTH || state.remaining_descendants == 0) ==> {
            let max_children = if state.remaining_descendants < MAX_CHILDREN_PER_TASK { state.remaining_descendants } else { MAX_CHILDREN_PER_TASK };
            let min_children: u8 = if state.depth == 0 { 1 } else { 0 };
            &&& min_children <= n <= max_children
            &&& (max_children - min_children + 1 > 1 ==> n == min_children + (xorshift(old(rng).state) % ((max_children - min_children + 1) as u64)) as u8
                    && final(rng).state == xorshift(old(rng).state))
            &&& (max_children - min_children + 1 <= 1 ==> n == min_children && final(rng).state == old(rng).state)
        },
{
    if state.depth >= MAX_DEPTH || state.remaining_descendants == 0 {
        return 0;
    }
    let max_children = if state.remaining_descendants < MAX_CHILDREN_PER_TASK { state.remaining_descendants } else { MAX_CHILDREN_PER_TASK };
    let min_children: u8 = if state.depth == 0 { 1 } else { 0 };
    min_children + rng.below(max_children - min_children + 1)
}

/// What a worker does on its own: yields, then sleeps of the given numbers
/// of milliseconds.
#[derive(Debug, PartialEq, Eq)]
pub struct LocalActions {
    pub yields: u8,
    pub sleeps_ms: Vec<u64>,
}

/// Draws a worker's own actions: up to the maximum number of yields, then,
/// when forced or on a coin flip, the maximum number of sleeps of 1 to 3 ms.
pub fn run_local_actions(rng: &mut WorkloadRng, force_sleep: bool) -> (a: LocalActions)
    ensures
        (a.yields, a.sleeps_ms@, final(rng).state) == local_draws(old(rng).state, force_sleep),
        a.yields <= MAX_YIELDS_PER_TASK,
        forall|i: int| 0 <= i < a.sleeps_ms@.len() ==> 1 <= #[trigger] a.sleeps_ms@[i] <= 3,
{
    let yields = rng.below(MAX_YIELDS_PER_TASK + 1);
    let sleep_count: u8 = if force_sleep || rng.bool() { MAX_SLEEP_PER_TASK } else { 0 };
    let ghost s2 = rng.state;
    let mut sleeps_ms: Vec<u64> = Vec::new();
    let mut i: u8 = 0;
    while i < sleep_count
        invariant
            i <= sleep_count <= MAX_SLEEP_PER_TASK,
            (sleeps_ms@, rng.state) == sleep_draws(s2, i as nat),
            forall|k: int| 0 <= k < sleeps_ms@.len() ==> 1 <= #[trigger] sleeps_ms@[k] <= 3,
        decreases sleep_count - i,
    {
        let millis = 1 + rng.below(3) as u64;
        sleeps_ms.push(millis);
        i += 1;
    }
    LocalActions { yields, sleeps_ms }
}

/// A child to spawn, and whether to yield after spawning it.
#[derive(Debug, Clone, Copy, PartialEq, Eq, Structural)]
pub struct ChildPlan {
    pub state: GenericWorkloadState,
    pub yield_after: bool,
}

/// The children of a worker, drawn after its first local actions: each child
/// gets a share of the remaining budget (none at the last level), its own
/// seed and the next depth.
pub fn plan_children(state: GenericWorkloadState, rng: &mut WorkloadRng) -> (children: Vec<ChildPlan>)
    ensures
        ({
            let (n, r) = child_count_draw(state, old(rng).state);
            (children@, final(rng).state) == (children_draws(state, n, r, n as nat).0, children_draws(state, n, r, n as nat).2)
        }),
        children@.len() <= MAX_CHILDREN_PER_TASK,
        children@.len() <= state.remaining_descendants,
        (state.depth >= MAX_DEPTH || state.remaining_descendants == 0) ==> children@.len() == 0,
        state.depth == 0 && state.remaining_descendants > 0 ==> children@.len() >= 1,
        forall|i: int| 0 <= i < children@.len() ==> (#[trigger] children@[i]).state.depth == state.depth + 1,
        ({
            let total = children@.len() + Seq::new(children@.len(), |i: int| children@[i].state.remaining_descendants as int).fold_left(0int, |acc: int, x: int| acc + x);
            total <= state.remaining_descendants
        }),
{
    let child_count = choose_child_count(state, rng);
    let ghost r0 = rng.state;
    let mut remaining = state.remaining_descendants - child_count;
    let mut children: Vec<ChildPlan> = Vec::new();
    let mut child_index: u8 = 0;
    let ghost budget = state.remaining_descendants as int;
    while child_index < child_count
        invariant
            child_index <= child_count <= MAX_CHILDREN_PER_TASK,
            child_count <= state.remaining_descendants,
            child_count > 0 ==> state.depth < MAX_DEPTH,
            children@.len() == child_index,
            forall|i: int| 0 <= i < children@.len() ==> (#[trigger] children@[i]).state.depth == state.depth + 1,
            children@.len() + Seq::new(children@.len(), |i: int| children@[i].state.remaining_descendants as int).fold_left(0int, |acc: int, x: int| acc + x)
                + remaining + (child_count - child_index) == budget,
            remaining + (child_count - child_index) <= budget,
            budget == state.remaining_descendants,
            (children@, remaining, rng.state) == children_draws(state, child_count, r0, child_index as nat),
        decreases child_count - child_index,
    {
        let child_remaining: u8 = if state.depth + 1 < MAX_DEPTH && remaining > 0 {
            rng.below(remaining + 1)
        } else {
            0
        };
        remaining = remaining - child_remaining;
        let seed = rng.next_u64() ^ ((child_index as u64) << 16u64);
        let child_state = GenericWorkloadState { seed, depth: state.depth + 1, remaining_descendants: child_remaining };
        let yield_after = rng.bool();
        let ghost before = children@;
        children.push(ChildPlan { state: child_state, yield_after });
        proof {
            let f = |acc: int, x: int| acc + x;
            let sb = Seq::new(before.len(), |i: int| before[i].state.remaining_descendants as int);
            let sa = Seq::new(children@.len(), |i: int| children@[i].state.remaining_descendants as int);
            assert(sa.drop_last() =~= sb);
            assert(sa.last() == child_remaining as int);
            sa.lemma_fold_left_split(0int, f, sa.len() - 1);
            assert(sa.subrange(0, sa.len() - 1) =~= sb);
            assert(sa.subrange(sa.len() - 1, sa.len() as int) =~= seq![child_remaining as int]);
            assert(seq![child_remaining as int].fold_left(sb.fold_left(0int, f), f) == sb.fold_left(0int, f) + child_remaining) by {
                reveal_with_fuel(Seq::fold_left, 2);
            }
        }
        child_index += 1;
    }
    children
}

/// Whether `c` is white space (Unicode `White_Space`).
pub open spec fn is_white_space(c: char) -> bool {
    ||| ('\u{9}' <= c && c <= '\u{d}')
    ||| c == ' ' || c == '\u{85}' || c == '\u{a0}' || c == '\u{1680}'
    ||| ('\u{2000}' <= c && c <= '\u{200a}')
    ||| c == '\u{2028}' || c == '\u{2029}' || c == '\u{202f}' || c == '\u{205f}' || c == '\u{3000}'
}

pub fn white_space(c: char) -> (b: bool)
    ensures
        b == is_white_space(c),
{
    ('\u{9}' <= c && c <= '\u{d}') || c == ' ' || c == '\u{85}' || c == '\u{a0}' || c == '\u{1680}'
        || ('\u{2000}' <= c && c <= '\u{200a}') || c == '\u{2028}' || c == '\u{2029}' || c == '\u{202f}'
        || c == '\u{205f}' || c == '\u{3000}'
}

/// Index of the first character of `s` that is not white space (the length
/// when there is none).
pub open spec fn trim_start_index(s: Seq<char>) -> int
    decreases s.len(),
{
    if s.len() == 0 {
        0
    } else if is_white_space(s[0]) {
        1 + trim_start_index(s.drop_first())
    } else {
        0
    }
}

/// Index after the last character of `s` that is not white space (zero when
/// there is none).
pub open spec fn trim_end_index(s: Seq<char>) -> int
    decreases s.len(),
{
    if s.len() == 0 {
        0
    } else if is_white_space(s.last()) {
        trim_end_index(s.drop_last())
    } else {
        s.len() as int
    }
}

/// `s` without white space at either end.
pub open spec fn trimmed(s: Seq<char>) -> Seq<char> {
    let a = trim_start_index(s);
    let b = trim_end_index(s);
    if a >= b { Seq::empty() } else { s.subrange(a, b) }
}

/// Value of the digit `c` in base `radix` (10 or 16), if it is one.
pub open spec fn digit_value(c: char, radix: u64) -> Option<u64> {
    if '0' <= c && c <= '9' {
        Some(((c as u64) - ('0' as u64)) as u64)
    } else if radix == 16 && 'a' <= c && c <= 'f' {
        Some(((c as u64) - ('a' as u64) + 10) as u64)
    } else if radix == 16 && 'A' <= c && c <= 'F' {
        Some(((c as u64) - ('A' as u64) + 10) as u64)
    } else {
        None
    }
}

/// The number written by the digits `s` in base `radix`, as a mathematical
/// integer; `None` when a character is not a digit.
pub open spec fn digits_value(s: Seq<char>, radix: u64) -> Option<int>
    decreases s.len(),
{
    if s.len() == 0 {
        Some(0)
    } else {
        match (digits_value(s.drop_last(), radix), digit_value(s.last(), radix)) {
            (Some(v), Some(d)) => Some(v * radix + d),
            _ => None,
        }
    }
}

/// An unsigned number in base `radix`: an optional `+` and at least one
/// digit, fitting in 64 bits.
pub open spec fn parse_unsigned(s: Seq<char>, radix: u64) -> Option<u64> {
    let body = if s.len() > 0 && s[0] == '+' { s.drop_first() } else { s };
    if body.len() == 0 {
        None
    } else {
        match digits_value(body, radix) {
            Some(v) => if v <= u64::MAX { Some(v as u64) } else { None },
            None => None,
        }
    }
}

/// A trace seed: the text without surrounding white space, in hexadecimal
/// after `0x` or `0X`, decimal otherwise; `None` for empty or malformed text.
pub open spec fn seed_value(raw: Seq<char>) -> Option<u64> {
    let t = trimmed(raw);
    if t.len() == 0 {
        None
    } else if t.len() >= 2 && t[0] == '0' && (t[1] == 'x' || t[1] == 'X') {
        parse_unsigned(t.skip(2), 16)
    } else {
        parse_unsigned(t, 10)
    }
}

/// The characters of `s`.
fn chars_of(s: &str) -> (v: Vec<char>)
    ensures
        v@ == s@,
{
    let n = s.unicode_len();
    let mut v: Vec<char> = Vec::new();
    let mut i: usize = 0;
    while i < n
        invariant
            i <= n,
            n == s@.len(),
            v@ == s@.subrange(0, i as int),
        decreases n - i,
    {
        v.push(s.get_char(i));
        i += 1;
        assert(v@ =~= s@.subrange(0, i as int));
    }
    assert(s@.subrange(0, n as int) =~= s@);
    v
}

proof fn lemma_trim_start(s: Seq<char>, i: int)
    requires
        0 <= i <= s.len(),
        forall|k: int| 0 <= k < i ==> is_white_space(s[k]),
    ensures
        trim_start_index(s) == i + trim_start_index(s.skip(i)),
    decreases i,
{
    if i > 0 {
        assert(s.skip(1) =~= s.drop_first());
        lemma_trim_start(s.drop_first(), i - 1);
        assert(s.drop_first().skip(i - 1) =~= s.skip(i));
    } else {
        assert(s.skip(0) =~= s);
    }
}

proof fn lemma_trim_end(s: Seq<char>, j: int)
    requires
        0 <= j <= s.len(),
        forall|k: int| j <= k < s.len() ==> is_white_space(s[k]),
    ensures
        trim_end_index(s) == trim_end_index(s.take(j)),
    decreases s.len() - j,
{
    if j < s.len() {
        assert(s.drop_last().take(j) =~= s.take(j));
        lemma_trim_end(s.drop_last(), j);
    } else {
        assert(s.take(j) =~= s);
    }
}

/// Value of the digits `v[from..to]` in base `radix`, or `None`.
fn parse_digits(v: &Vec<char>, from: usize, to: usize, radix: u64) -> (r: Option<u64>)
    requires
        from <= to <= v@.len(),
        radix == 10 || radix == 16,
    ensures
        r == (match digits_value(v@.subrange(from as int, to as int), radix) {
            Some(x) => if x <= u64::MAX { Some(x as u64) } else { None },
            None => None,
        }),
{
    let mut acc: u64 = 0;
    let mut overflow = false;
    let mut i: usize = from;
    while i < to
        invariant
            from <= i <= to <= v@.len(),
            radix == 10 || radix == 16,
            digits_value(v@.subrange(from as int, i as int), radix) is Some,
            !overflow ==> digits_value(v@.subrange(from as int, i as int), radix) == Some(acc as int),
            overflow ==> digits_value(v@.subrange(from as int, i as int), radix).unwrap() > u64::MAX,
        decreases to - i,
    {
        let c = v[i];
        let d: u64 = if '0' <= c && c <= '9' {
            (c as u64) - ('0' as u64)
        } else if radix == 16 && 'a' <= c && c <= 'f' {
            (c as u64) - ('a' as u64) + 10
        } else if radix == 16 && 'A' <= c && c <= 'F' {
            (c as u64) - ('A' as u64) + 10
        } else {
            proof {
                let s = v@.subrange(from as int, to as int);
                assert(v@.subrange(from as int, i + 1).last() == c);
                assert(digits_value(v@.subrange(from as int, i + 1), radix) is None);
                lemma_digits_none_extends(v@, from as int, i + 1, to as int, radix);
            }
            return None;
        };
        let ghost prev = digits_value(v@.subrange(from as int, i as int), radix).unwrap();
        proof {
            assert(v@.subrange(from as int, i + 1).drop_last() =~= v@.subrange(from as int, i as int));
            assert(v@.subrange(from as int, i + 1).last() == c);
            assert(digit_value(c, radix) == Some(d));
        }
        if !overflow {
            match acc.checked_mul(radix) {
                Some(m) => match m.checked_add(d) {
                    Some(x) => acc = x,
                    None => overflow = true,
                },
                None => {
                    overflow = true;
                    assert(prev * radix + d > u64::MAX) by (nonlinear_arith)
                        requires prev * radix > u64::MAX, d >= 0;
                },
            }
        } else {
            assert(prev * radix + d > u64::MAX) by (nonlinear_arith)
                requires prev > u64::MAX, radix >= 10, d >= 0;
        }
        i += 1;
    }
    if overflow { None } else { Some(acc) }
}

proof fn lemma_digits_none_extends(v: Seq<char>, from: int, mid: int, to: int, radix: u64)
    requires
        0 <= from <= mid <= to <= v.len(),
        digits_value(v.subrange(from, mid), radix) is None,
    ensures
        digits_value(v.subrange(from, to), radix) is None,
    decreases to - mid,
{
    if to > mid {
        lemma_digits_none_extends(v, from, mid, to - 1, radix);
        assert(v.subrange(from, to).drop_last() =~= v.subrange(from, to - 1));
    }
}

/// Parses a trace seed (see `seed_value`).
pub fn parse_generic_trace_seed(raw: &str) -> (r: Option<u64>)
    ensures
        r == seed_value(raw@),
{
    let v = chars_of(raw);
    let n = v.len();
    let mut a: usize = 0;
    while a < n && white_space(v[a])
        invariant
            a <= n == v@.len(),
            forall|k: int| 0 <= k < a ==> is_white_space(v@[k]),
        decreases n - a,
    {
        a += 1;
    }
    let mut b: usize = n;
    while b > a && white_space(v[b - 1])
        invariant
            a <= b <= n == v@.len(),
            forall|k: int| b <= k < n ==> is_white_space(v@[k]),
        decreases b - a,
    {
        b -= 1;
    }
    proof {
        lemma_trim_start(v@, a as int);
        lemma_trim_end(v@, b as int);
        if a < n {
            assert(!is_white_space(v@[a as int]));
            assert(v@.skip(a as int)[0] == v@[a as int]);
            assert(trim_start_index(v@.skip(a as int)) == 0);
        } else {
            assert(v@.skip(a as int).len() == 0);
        }
        if b > a {
            assert(!is_white_space(v@[b - 1]));
            assert(v@.take(b as int).last() == v@[b - 1]);
            assert(trim_end_index(v@.take(b as int)) == b);
        } else {
            lemma_trim_end_le(v@.take(b as int), a as int);
        }
    }
    if a >= b {
        return None;
    }
    let ghost t = v@.subrange(a as int, b as int);
    assert(t == trimmed(raw@));
    let (start, radix): (usize, u64) = if b - a >= 2 && v[a] == '0' && (v[a + 1] == 'x' || v[a + 1] == 'X') {
        (a + 2, 16)
    } else {
        (a, 10)
    };
    let ghost body0 = v@.subrange(start as int, b as int);
    proof {
        if radix == 16 {
            assert(t.skip(2) =~= body0);
        } else {
            assert(t =~= body0);
        }
    }
    let digits_start = if start < b && v[start] == '+' { start + 1 } else { start };
    proof {
        if digits_start > start {
            assert(body0.drop_first() =~= v@.subrange(digits_start as int, b as int));
        }
    }
    if digits_start >= b {
        return None;
    }
    parse_digits(&v, digits_start, b, radix)
}

proof fn lemma_trim_end_le(s: Seq<char>, a: int)
    requires
        0 <= a,
        forall|k: int| 0 <= k < a && k < s.len() ==> is_white_space(s[k]),
        s.len() <= a,
    ensures
        trim_end_index(s) == 0,
    decreases s.len(),
{
    if s.len() > 0 {
        lemma_trim_end_le(s.drop_last(), a);
    }
}

/// The seed of the trace workload: the configured text when it parses, the
/// default seed otherwise.
pub fn generic_trace_seed(configured: Option<&str>) -> (seed: u64)
    ensures
        seed == (match configured {
            Some(raw) => match seed_value(raw@) {
                Some(v) => v,
                None => DEFAULT_GENERIC_TRACE_SEED,
            },
            None => DEFAULT_GENERIC_TRACE_SEED,
        }),
{
    match configured {
        Some(raw) => match parse_generic_trace_seed(raw) {
            Some(v) => v,
            None => DEFAULT_GENERIC_TRACE_SEED,
        },
        None => DEFAULT_GENERIC_TRACE_SEED,
    }
}

/// The root of the trace workload.
pub fn root_state(seed: u64) -> (s: GenericWorkloadState)
    ensures
        s == (GenericWorkloadState { seed, depth: 0, remaining_descendants: (MAX_TOTAL_TASKS - 1) as u8 }),
{
    GenericWorkloadState { seed, depth: 0, remaining_descendants: MAX_TOTAL_TASKS - 1 }
}

} // verus!
