//! The status bar: its registry of named blocks, the joined status line,
//! and the decisions of its event loop.

use crate::block::{kept_output, line_of, valid_interval, Block, BlockRunMode};
use vstd::utf8::{decode_utf8, valid_utf8};
use crate::config::{Config, ConfigStatusBarBlock};
use crate::text::{decimal, decimal_string, join};
use indexmap::IndexMap;
use std::sync::Arc;
use vstd::prelude::*;
use vstd::string::StringExecFns;

verus! {

/// A request to refresh the block `name`, run in `mode`.
#[derive(Debug, PartialEq, Clone)]
pub struct BlockRefreshMessage {
    pub(crate) name: String,
    pub(crate) mode: BlockRunMode,
}

impl View for BlockRefreshMessage {
    type V = (Seq<char>, BlockRunMode);

    /// The block's name and the mode.
    closed spec fn view(&self) -> (Seq<char>, BlockRunMode) {
        (self.name@, self.mode)
    }
}

impl BlockRefreshMessage {
    /// Creates a request to refresh `name` in `mode`.
    pub fn new(name: String, mode: BlockRunMode) -> (r: Self)
        ensures
            r@ == (name@, mode),
    {
        BlockRefreshMessage { name, mode }
    }

    /// The name of the block to refresh.
    pub fn name(&self) -> (r: &String)
        ensures
            r@ == self@.0,
    {
        &self.name
    }

    /// The mode to run the block in.
    pub fn mode(&self) -> (r: BlockRunMode)
        ensures
            r == self@.1,
    {
        self.mode
    }
}


#[verifier::external_type_specification]
#[verifier::external_body]
#[verifier::reject_recursive_types(K)]
#[verifier::reject_recursive_types(V)]
#[verifier::reject_recursive_types(S)]
pub struct ExIndexMap<K, V, S>(IndexMap<K, V, S>);

/// The entries of an index map from names to numbers, in insertion order.
pub uninterp spec fn entries(m: IndexMap<String, usize>) -> Seq<(Seq<char>, usize)>;

/// The position of the entry for `k` in `es`, or -1 if there is none.
pub open spec fn pos_of(es: Seq<(Seq<char>, usize)>, k: Seq<char>) -> int
    decreases es.len(),
{
    if es.len() == 0 {
        -1
    } else if es.last().0 == k {
        es.len() - 1
    } else {
        pos_of(es.drop_last(), k)
    }
}

/// The number stored for `k` in `es`.
pub open spec fn lookup(es: Seq<(Seq<char>, usize)>, k: Seq<char>) -> Option<usize> {
    if pos_of(es, k) >= 0 {
        Some(es[pos_of(es, k)].1)
    } else {
        None
    }
}

/// `es` after storing `v` for `k`: an entry already there keeps its place
/// and takes the new number; otherwise a new entry goes last.
pub open spec fn put(es: Seq<(Seq<char>, usize)>, k: Seq<char>, v: usize) -> Seq<(Seq<char>, usize)> {
    if pos_of(es, k) >= 0 {
        es.update(pos_of(es, k), (k, v))
    } else {
        es.push((k, v))
    }
}

/// Relies on `IndexMap::new`: a new map is empty.
#[verifier::external_body]
fn map_new() -> (r: IndexMap<String, usize>)
    ensures
        entries(r) == Seq::<(Seq<char>, usize)>::empty(),
{
    IndexMap::new()
}

/// Relies on `IndexMap::get`: the number stored for an equal key, if any.
#[verifier::external_body]
fn map_get(m: &IndexMap<String, usize>, key: &str) -> (r: Option<usize>)
    ensures
        r == lookup(entries(*m), key@),
{
    m.get(key).copied()
}

/// Relies on `IndexMap::insert`: an existing key keeps its place and takes
/// the new value; a new key goes last.
#[verifier::external_body]
fn map_insert(m: &mut IndexMap<String, usize>, key: String, value: usize)
    ensures
        entries(*final(m)) == put(entries(*old(m)), key@, value),
{
    m.insert(key, value);
}

/// Relies on `IndexMap::len`: the number of entries.
#[verifier::external_body]
fn map_len(m: &IndexMap<String, usize>) -> (r: usize)
    ensures
        r == entries(*m).len(),
{
    m.len()
}

/// Relies on `IndexMap::get_index`: the entry at a position, in insertion order.
#[verifier::external_body]
fn map_entry(m: &IndexMap<String, usize>, i: usize) -> (r: Option<(String, usize)>)
    ensures
        r is Some <==> i < entries(*m).len(),
        r matches Some(e) ==> e.0@ == entries(*m)[i as int].0 && e.1 == entries(*m)[i as int].1,
{
    m.get_index(i).map(|(k, v)| (k.clone(), *v))
}

proof fn lemma_pos_of(es: Seq<(Seq<char>, usize)>, k: Seq<char>)
    ensures
        -1 <= pos_of(es, k) < es.len(),
        pos_of(es, k) >= 0 ==> es[pos_of(es, k)].0 == k,
        pos_of(es, k) == -1 <==> (forall|j: int| 0 <= j < es.len() ==> es[j].0 != k),
    decreases es.len(),
{
    if es.len() > 0 {
        lemma_pos_of(es.drop_last(), k);
        if es.last().0 != k {
            assert forall|j: int| 0 <= j < es.len() - 1 implies es[j] == es.drop_last()[j] by {}
        }
    }
}

proof fn lemma_pos_of_push(es: Seq<(Seq<char>, usize)>, k: Seq<char>, e: (Seq<char>, usize))
    ensures
        pos_of(es.push(e), k) == (if e.0 == k {
            es.len() as int
        } else {
            pos_of(es, k)
        }),
{
    assert(es.push(e).drop_last() =~= es);
}

proof fn lemma_pos_of_update(es: Seq<(Seq<char>, usize)>, k: Seq<char>, p: int, v: usize)
    requires
        0 <= p < es.len(),
    ensures
        pos_of(es.update(p, (es[p].0, v)), k) == pos_of(es, k),
    decreases es.len(),
{
    let u = es.update(p, (es[p].0, v));
    if p == es.len() - 1 {
        assert(u.drop_last() =~= es.drop_last());
    } else {
        assert(u.drop_last() =~= es.drop_last().update(p, (es[p].0, v)));
        lemma_pos_of_update(es.drop_last(), k, p, v);
    }
}

/// Whether no name occurs twice in `ns`.
pub open spec fn all_distinct(ns: Seq<Seq<char>>) -> bool {
    forall|i: int, j: int| 0 <= i < j < ns.len() ==> ns[i] != ns[j]
}

/// The names that occur more than once in `ns`, in the order in which they
/// first repeat, each with its number of occurrences.
pub open spec fn collisions(ns: Seq<Seq<char>>) -> Seq<(Seq<char>, usize)>
    decreases ns.len(),
{
    if ns.len() == 0 {
        seq![]
    } else {
        let prev = collisions(ns.drop_last());
        let n = ns.last();
        if !ns.drop_last().contains(n) {
            prev
        } else {
            put(
                prev,
                n,
                match lookup(prev, n) {
                    Some(c) => (c + 1) as usize,
                    None => 2,
                },
            )
        }
    }
}

/// How many times `n` occurs in `ns`.
pub open spec fn occurrences(ns: Seq<Seq<char>>, n: Seq<char>) -> nat
    decreases ns.len(),
{
    if ns.len() == 0 {
        0
    } else {
        occurrences(ns.drop_last(), n) + (if ns.last() == n {
            1nat
        } else {
            0nat
        })
    }
}

proof fn lemma_occurrences_contains(ns: Seq<Seq<char>>, n: Seq<char>)
    ensures
        occurrences(ns, n) >= 1 <==> ns.contains(n),
        occurrences(ns, n) <= ns.len(),
    decreases ns.len(),
{
    if ns.len() > 0 {
        lemma_occurrences_contains(ns.drop_last(), n);
        if ns.drop_last().contains(n) {
            let j = choose|j: int| 0 <= j < ns.drop_last().len() && ns.drop_last()[j] == n;
            assert(ns[j] == n);
        }
        if ns.contains(n) && ns.last() != n {
            let j = choose|j: int| 0 <= j < ns.len() && ns[j] == n;
            assert(ns.drop_last()[j] == n);
        }
    }
}

/// The collisions name exactly the names that occur more than once, each
/// once, with its number of occurrences.
pub proof fn law_collision_counts(ns: Seq<Seq<char>>)
    requires
        ns.len() <= usize::MAX,
    ensures
        forall|j: int| 0 <= j < collisions(ns).len() ==> {
            &&& (#[trigger] collisions(ns)[j]).1 == occurrences(ns, collisions(ns)[j].0)
            &&& occurrences(ns, collisions(ns)[j].0) >= 2
        },
        forall|n: Seq<char>| occurrences(ns, n) >= 2 <==> #[trigger] pos_of(collisions(ns), n) >= 0,
        forall|i: int, j: int| 0 <= i < j < collisions(ns).len() ==> collisions(ns)[i].0 != collisions(ns)[j].0,
    decreases ns.len(),
{
    if ns.len() > 0 {
        let pre = ns.drop_last();
        let n = ns.last();
        let prev = collisions(pre);
        law_collision_counts(pre);
        lemma_occurrences_contains(pre, n);
        lemma_occurrences_contains(ns, n);
        lemma_pos_of(prev, n);
        let cs = collisions(ns);
        if !pre.contains(n) {
            assert(cs == prev);
            assert forall|j: int| 0 <= j < cs.len() implies (#[trigger] cs[j]).1 == occurrences(ns, cs[j].0) && occurrences(ns, cs[j].0) >= 2 by {
                assert(cs[j].0 != n) by {
                    if cs[j].0 == n {
                        assert(occurrences(pre, n) >= 2);
                    }
                }
            }
            assert forall|m: Seq<char>| occurrences(ns, m) >= 2 <==> #[trigger] pos_of(cs, m) >= 0 by {
                if m == n {
                    lemma_pos_of(prev, m);
                }
            }
        } else {
            let c: usize = match lookup(prev, n) {
                Some(c) => (c + 1) as usize,
                None => 2,
            };
            assert(c == occurrences(ns, n)) by {
                if pos_of(prev, n) >= 0 {
                    assert(prev[pos_of(prev, n)].0 == n);
                } else {
                    assert(occurrences(pre, n) < 2);
                }
            }
            assert(cs == put(prev, n, c));
            if pos_of(prev, n) >= 0 {
                let p = pos_of(prev, n);
                assert(prev[p].0 == n);
                assert(cs == prev.update(p, (prev[p].0, c)));
                assert forall|m: Seq<char>| #[trigger] pos_of(cs, m) == pos_of(prev, m) by {
                    lemma_pos_of_update(prev, m, p, c);
                }
                assert forall|j: int| 0 <= j < cs.len() implies (#[trigger] cs[j]).1 == occurrences(ns, cs[j].0) && occurrences(ns, cs[j].0) >= 2 by {
                    if j != p {
                        assert(cs[j] == prev[j]);
                        assert(prev[j].0 != n);
                    }
                }
                assert forall|m: Seq<char>| occurrences(ns, m) >= 2 <==> #[trigger] pos_of(cs, m) >= 0 by {
                    assert(pos_of(cs, m) == pos_of(prev, m));
                }
                assert forall|i: int, j: int| 0 <= i < j < cs.len() implies cs[i].0 != cs[j].0 by {
                    assert(cs[i].0 == prev[i].0 && cs[j].0 == prev[j].0);
                }
            } else {
                assert(cs == prev.push((n, c)));
                assert forall|m: Seq<char>| #[trigger] pos_of(cs, m) == (if m == n { prev.len() as int } else { pos_of(prev, m) }) by {
                    lemma_pos_of_push(prev, m, (n, c));
                }
                assert forall|j: int| 0 <= j < cs.len() implies (#[trigger] cs[j]).1 == occurrences(ns, cs[j].0) && occurrences(ns, cs[j].0) >= 2 by {
                    if j < prev.len() {
                        assert(cs[j] == prev[j]);
                        assert(prev[j].0 != n) by {
                            lemma_pos_of(prev, n);
                        }
                    }
                }
                assert forall|m: Seq<char>| occurrences(ns, m) >= 2 <==> #[trigger] pos_of(cs, m) >= 0 by {
                    if m == n {
                        assert(pos_of(cs, m) == prev.len());
                    } else {
                        assert(pos_of(cs, m) == pos_of(prev, m));
                    }
                }
                assert forall|i: int, j: int| 0 <= i < j < cs.len() implies cs[i].0 != cs[j].0 by {
                    if j == prev.len() {
                        assert(cs[i] == prev[i]);
                        lemma_pos_of(prev, n);
                    } else {
                        assert(cs[i] == prev[i] && cs[j] == prev[j]);
                    }
                }
            }
        }
    }
}

/// The report of the collisions `cs`, one sentence per name.
pub open spec fn collision_report(cs: Seq<(Seq<char>, usize)>) -> Seq<char>
    decreases cs.len(),
{
    if cs.len() == 0 {
        seq![]
    } else {
        collision_report(cs.drop_last()) + "Name: `"@ + cs.last().0 + "` occurs multiple ("@
            + decimal(cs.last().1 as nat) + ") times"@
    }
}

/// The outputs that are present, in order.
pub open spec fn present(outs: Seq<Option<Seq<char>>>) -> Seq<Seq<char>>
    decreases outs.len(),
{
    if outs.len() == 0 {
        seq![]
    } else {
        match outs.last() {
            Some(o) => present(outs.drop_last()).push(o),
            None => present(outs.drop_last()),
        }
    }
}

/// The status line: the present outputs joined with the delimiter.
pub open spec fn status_line(outs: Seq<Option<Seq<char>>>, delimiter: Seq<char>) -> Seq<char> {
    join(present(outs), delimiter)
}

/// A block with its name, as handed to [`StatusBar::new`].
#[derive(Debug, PartialEq, Clone)]
pub struct StatusBarBlock {
    /// The block's name.
    pub name: String,
    /// The block.
    pub block: Block,
}

/// Why a status bar could not be built.
#[derive(Debug, PartialEq, Clone)]
pub enum StatusBarCreationError {
    /// Some names occur more than once; the text names each with its count.
    BlockIdError(String),
}

impl StatusBarCreationError {
    /// The text of the error.
    pub fn message(&self) -> (r: String)
        ensures
            r@ == (match self {
                StatusBarCreationError::BlockIdError(m) => "Each block id should be unique\n\n"@
                    + m@,
            }),
    {
        match self {
            StatusBarCreationError::BlockIdError(m) => {
                let mut out = String::from_str("Each block id should be unique\n\n");
                out.append(m.as_str());
                out
            },
        }
    }
}

/// A decision of the status bar's event loop.
#[derive(Debug, PartialEq, Eq, Structural, Copy, Clone)]
pub enum Decision {
    /// Run the block at this position in this mode, then publish the status line.
    Run(usize, BlockRunMode),
    /// Nothing to do; wait for the next event.
    Wait,
    /// Stop the loop.
    Finish,
}

/// Which inputs of the event loop are still open.
#[derive(Debug, PartialEq, Eq, Structural, Copy, Clone)]
pub struct SchedulerState {
    /// Refresh requests may still come.
    pub refresh_open: bool,
    /// Timer ticks may still come.
    pub ticks_open: bool,
}

impl SchedulerState {
    /// Both inputs open.
    pub fn new() -> (r: Self)
        ensures
            r.refresh_open && r.ticks_open,
    {
        SchedulerState { refresh_open: true, ticks_open: true }
    }
}

/// An event of the status bar's event loop.
#[derive(Debug, PartialEq, Clone)]
pub enum SchedulerEvent {
    /// The timer of the block at this position ticked.
    Tick(usize),
    /// A refresh request came.
    Refresh(BlockRefreshMessage),
    /// No more refresh requests will come.
    RefreshClosed,
    /// No more timer ticks will come.
    TicksClosed,
    /// The status line could not be published: nobody listens any more.
    PublishFailed,
}

/// The state and decision after the refresh input closes in `st`.
pub open spec fn close_refresh(st: SchedulerState) -> (SchedulerState, Decision) {
    (
        SchedulerState { refresh_open: false, ticks_open: st.ticks_open },
        if st.ticks_open {
            Decision::Wait
        } else {
            Decision::Finish
        },
    )
}

/// The state and decision after the tick input closes in `st`.
pub open spec fn close_ticks(st: SchedulerState) -> (SchedulerState, Decision) {
    (
        SchedulerState { refresh_open: st.refresh_open, ticks_open: false },
        if st.refresh_open {
            Decision::Wait
        } else {
            Decision::Finish
        },
    )
}

/// A status bar: named blocks in order, and the delimiter between outputs.
#[derive(Debug)]
pub struct StatusBar {
    blocks: Vec<Block>,
    index: IndexMap<String, usize>,
    config: Arc<Config>,
}

impl StatusBar {
    /// The block names, in order.
    pub closed spec fn names(&self) -> Seq<Seq<char>> {
        entries(self.index).map_values(|e: (Seq<char>, usize)| e.0)
    }

    /// The blocks, in order.
    pub closed spec fn blocks_view(&self) -> Seq<Block> {
        self.blocks@
    }

    /// The blocks' outputs, in order.
    pub closed spec fn outputs(&self) -> Seq<Option<Seq<char>>> {
        self.blocks@.map_values(|b: Block| b.output())
    }

    /// The delimiter between outputs.
    pub closed spec fn delimiter(&self) -> Seq<char> {
        self.config.statusbar.delimiter@
    }

    /// The position of the block named `name`, if there is one.
    pub closed spec fn position(&self, name: Seq<char>) -> Option<usize> {
        lookup(entries(self.index), name)
    }

    /// Names and blocks agree: each name maps to its own position.
    pub closed spec fn wf(&self) -> bool {
        &&& entries(self.index).len() == self.blocks@.len()
        &&& forall|j: int| 0 <= j < self.blocks@.len() ==> #[trigger] entries(self.index)[j].1 == j
        &&& all_distinct(self.names())
    }

    /// Builds a status bar from named blocks, keeping their order. Fails,
    /// naming each repeated name with its count, when a name repeats.
    pub fn new(blocks: Vec<StatusBarBlock>, config: Arc<Config>) -> (r: Result<
        Self,
        StatusBarCreationError,
    >)
        ensures
            ({
                let ns = blocks@.map_values(|b: StatusBarBlock| b.name@);
                &&& r is Ok <==> all_distinct(ns)
                &&& r matches Ok(sb) ==> {
                    &&& sb.wf()
                    &&& sb.names() == ns
                    &&& sb.blocks_view() == blocks@.map_values(|b: StatusBarBlock| b.block)
                    &&& sb.delimiter() == config.statusbar.delimiter@
                }
                &&& r matches Err(StatusBarCreationError::BlockIdError(m)) ==> m@
                    == collision_report(collisions(ns))
            }),
    {
        let ghost ns = blocks@.map_values(|b: StatusBarBlock| b.name@);
        let ghost bs = blocks@;
        let mut index = map_new();
        let mut errors = map_new();
        let mut kept: Vec<Block> = Vec::new();
        let total = blocks.len();
        for sb in it: blocks
            invariant
                bs == it.seq(),
                bs.len() == total,
                ns == bs.map_values(|b: StatusBarBlock| b.name@),
                kept@.len() == entries(index).len(),
                forall|j: int| 0 <= j < kept@.len() ==> #[trigger] entries(index)[j].1 == j,
                forall|n: Seq<char>| #![auto] pos_of(entries(index), n) >= 0 <==> ns.take(it.index() as int).contains(n),
                entries(errors) == collisions(ns.take(it.index() as int)),
                forall|j: int| 0 <= j < entries(errors).len() ==> #[trigger] entries(errors)[j].1 <= it.index(),
                all_distinct(ns.take(it.index() as int)) ==> {
                    &&& kept@ == bs.take(it.index() as int).map_values(|b: StatusBarBlock| b.block)
                    &&& entries(index).map_values(|e: (Seq<char>, usize)| e.0) == ns.take(it.index() as int)
                },
                all_distinct(ns.take(it.index() as int)) <==> entries(errors).len() == 0,
        {
            let ghost k = it.index();
            let ghost pre = ns.take(k as int);
            let ghost now = ns.take(k + 1);
            assert(now.drop_last() =~= pre);
            assert(now.last() == sb.name@);
            let StatusBarBlock { name, block } = sb;
            proof {
                lemma_pos_of(entries(index), name@);
            }
            match map_get(&index, name.as_str()) {
                None => {
                    let pos = kept.len();
                    let ghost old_es = entries(index);
                    map_insert(&mut index, name, pos);
                    kept.push(block);
                    proof {
                        assert(!pre.contains(now.last()));
                        assert forall|n: Seq<char>| #![auto] pos_of(entries(index), n) >= 0 <==> now.contains(n) by {
                            lemma_pos_of_push(old_es, n, (now.last(), pos));
                            if now.contains(n) && n != now.last() {
                                let j = choose|j: int| 0 <= j < now.len() && now[j] == n;
                                assert(pre[j] == n);
                            }
                            if pre.contains(n) {
                                let j = choose|j: int| 0 <= j < pre.len() && pre[j] == n;
                                assert(now[j] == n);
                            }
                        }
                        assert(entries(errors) == collisions(now));
                        if all_distinct(now) {
                            assert(kept@ =~= bs.take(k + 1).map_values(|b: StatusBarBlock| b.block));
                            assert(entries(index).map_values(|e: (Seq<char>, usize)| e.0) =~= now);
                        }
                        assert(all_distinct(pre) ==> all_distinct(now)) by {
                            if all_distinct(pre) {
                                assert forall|i: int, j: int| 0 <= i < j < now.len() implies now[i] != now[j] by {
                                    if j == now.len() - 1 {
                                        assert(now[i] == pre[i]);
                                    } else {
                                        assert(now[i] == pre[i] && now[j] == pre[j]);
                                    }
                                }
                            }
                        }
                        assert(all_distinct(now) ==> all_distinct(pre)) by {
                            if all_distinct(now) {
                                assert forall|i: int, j: int| 0 <= i < j < pre.len() implies pre[i] != pre[j] by {
                                    assert(now[i] == pre[i] && now[j] == pre[j]);
                                }
                            }
                        }
                    }
                },
                Some(_) => {
                    proof {
                        lemma_pos_of(entries(errors), name@);
                        if pos_of(entries(errors), name@) >= 0 {
                            assert(entries(errors)[pos_of(entries(errors), name@)].1 <= k);
                        }
                    }
                    let count: usize = match map_get(&errors, name.as_str()) {
                        Some(c) => c + 1,
                        None => 2,
                    };
                    let ghost old_errs = entries(errors);
                    map_insert(&mut errors, name, count);
                    proof {
                        assert(pre.contains(now.last()));
                        assert(entries(errors) == collisions(now));
                        assert forall|n: Seq<char>| #![auto] pos_of(entries(index), n) >= 0 <==> now.contains(n) by {
                            if now.contains(n) {
                                let j = choose|j: int| 0 <= j < now.len() && now[j] == n;
                                if j < pre.len() {
                                    assert(pre[j] == n);
                                }
                            }
                            if pre.contains(n) {
                                let j = choose|j: int| 0 <= j < pre.len() && pre[j] == n;
                                assert(now[j] == n);
                            }
                        }
                        let j0 = choose|j: int| 0 <= j < pre.len() && pre[j] == now.last();
                        assert(now[j0] == now[now.len() - 1]);
                        assert(!all_distinct(now));
                        assert(entries(errors).len() > 0) by {
                            if pos_of(old_errs, now.last()) >= 0 {
                                lemma_pos_of(old_errs, now.last());
                            }
                        }
                        assert forall|j: int| 0 <= j < entries(errors).len() implies #[trigger] entries(errors)[j].1 <= k + 1 by {
                            if pos_of(old_errs, now.last()) >= 0 && j != pos_of(old_errs, now.last()) {
                                assert(entries(errors)[j] == old_errs[j]);
                            } else if pos_of(old_errs, now.last()) < 0 && j < old_errs.len() {
                                assert(entries(errors)[j] == old_errs[j]);
                            }
                        }
                    }
                },
            }
        }
        assert(ns.take(ns.len() as int) =~= ns);
        assert(bs.take(bs.len() as int) =~= bs);
        if map_len(&errors) > 0 {
            Err(StatusBarCreationError::BlockIdError(report_collisions(&errors)))
        } else {
            let sb = StatusBar { blocks: kept, index, config };
            proof {
                assert(sb.names() == ns);
                assert forall|i: int, j: int| 0 <= i < j < sb.names().len() implies sb.names()[i] != sb.names()[j] by {
                    assert(sb.names()[i] == ns[i]);
                }
            }
            Ok(sb)
        }
    }
}

impl StatusBar {
    /// Builds the status bar that the configuration describes.
    pub fn from_config(config: Arc<Config>) -> (r: Result<Self, StatusBarCreationError>)
        requires
            forall|i: int| 0 <= i < config.statusbar.blocks@.len() ==> valid_interval(
                #[trigger] config.statusbar.blocks@[i].interval,
            ),
        ensures
            ({
                let cbs = config.statusbar.blocks@;
                let ns = cbs.map_values(|b: ConfigStatusBarBlock| b.name@);
                &&& r is Ok <==> all_distinct(ns)
                &&& r matches Ok(sb) ==> {
                    &&& sb.wf()
                    &&& sb.names() == ns
                    &&& sb.blocks_view().len() == cbs.len()
                    &&& forall|i: int| 0 <= i < cbs.len() ==> {
                        &&& (#[trigger] sb.blocks_view()[i]).command_view() == cbs[i].command@
                        &&& sb.blocks_view()[i].args_view() == cbs[i].args@.map_values(
                            |a: String| a@,
                        )
                        &&& sb.blocks_view()[i].interval_view() == cbs[i].interval
                        &&& sb.blocks_view()[i].output() is None
                    }
                    &&& sb.delimiter() == config.statusbar.delimiter@
                }
                &&& r matches Err(StatusBarCreationError::BlockIdError(m)) ==> m@
                    == collision_report(collisions(ns))
            }),
    {
        let ghost cbs = config.statusbar.blocks@;
        let mut blocks: Vec<StatusBarBlock> = Vec::new();
        let mut i: usize = 0;
        while i < config.statusbar.blocks.len()
            invariant
                cbs == config.statusbar.blocks@,
                i <= cbs.len(),
                forall|j: int| 0 <= j < cbs.len() ==> valid_interval(#[trigger] cbs[j].interval),
                blocks@.len() == i,
                forall|j: int| 0 <= j < i ==> {
                    &&& (#[trigger] blocks@[j]).name@ == cbs[j].name@
                    &&& blocks@[j].block.command_view() == cbs[j].command@
                    &&& blocks@[j].block.args_view() == cbs[j].args@.map_values(|a: String| a@)
                    &&& blocks@[j].block.interval_view() == cbs[j].interval
                    &&& blocks@[j].block.output() is None
                },
            decreases cbs.len() - i,
        {
            let cb = &config.statusbar.blocks[i];
            let args = cb.args.clone();
            assert(args@.map_values(|a: String| a@) =~= cb.args@.map_values(|a: String| a@)) by {
                assert forall|j: int| 0 <= j < args@.len() implies args@[j]@ == cb.args@[j]@ by {
                    assert(cloned::<String>(cb.args[j], args[j]));
                }
            }
            let block = Block::new(cb.command.clone(), args, cb.interval, config.clone());
            blocks.push(StatusBarBlock { name: cb.name.clone(), block });
            i = i + 1;
        }
        let ghost bs = blocks@;
        assert(bs.map_values(|b: StatusBarBlock| b.name@) =~= cbs.map_values(
            |b: ConfigStatusBarBlock| b.name@,
        ));
        StatusBar::new(blocks, config)
    }

    /// The number of blocks.
    pub fn len(&self) -> (r: usize)
        ensures
            r == self.blocks_view().len(),
    {
        self.blocks.len()
    }

    /// The block at position `i`.
    pub fn block(&self, i: usize) -> (r: &Block)
        requires
            i < self.blocks_view().len(),
        ensures
            *r == self.blocks_view()[i as int],
    {
        &self.blocks[i]
    }

    /// The position of the block named `name`, if there is one.
    pub fn find(&self, name: &str) -> (r: Option<usize>)
        requires
            self.wf(),
        ensures
            r == self.position(name@),
            r matches Some(i) ==> i < self.blocks_view().len() && self.names()[i as int] == name@,
            r is None <==> !self.names().contains(name@),
    {
        proof {
            lemma_pos_of(entries(self.index), name@);
        }
        let r = map_get(&self.index, name);
        proof {
            if let Some(i) = r {
                assert(self.names()[i as int] == entries(self.index)[i as int].0);
            } else {
                if self.names().contains(name@) {
                    let j = choose|j: int| 0 <= j < self.names().len() && self.names()[j] == name@;
                    assert(entries(self.index)[j].0 == name@);
                }
            }
        }
        r
    }

    /// The positions and intervals of the blocks that refresh on their own, in order.
    pub fn timed_blocks(&self) -> (r: Vec<(usize, u64)>)
        ensures
            forall|k: int| 0 <= k < r@.len() ==> {
                &&& (#[trigger] r@[k]).0 < self.blocks_view().len()
                &&& self.blocks_view()[r@[k].0 as int].interval_view() == Some(r@[k].1)
            },
            forall|k1: int, k2: int| 0 <= k1 < k2 < r@.len() ==> r@[k1].0 < r@[k2].0,
            forall|i: int| 0 <= i < self.blocks_view().len() && (
            #[trigger] self.blocks_view()[i]).interval_view() is Some ==> exists|k: int|
                0 <= k < r@.len() && r@[k].0 == i,
    {
        let mut out: Vec<(usize, u64)> = Vec::new();
        let mut i: usize = 0;
        while i < self.blocks.len()
            invariant
                i <= self.blocks@.len(),
                forall|k: int| 0 <= k < out@.len() ==> {
                    &&& (#[trigger] out@[k]).0 < i
                    &&& self.blocks@[out@[k].0 as int].interval_view() == Some(out@[k].1)
                },
                forall|k1: int, k2: int| 0 <= k1 < k2 < out@.len() ==> out@[k1].0 < out@[k2].0,
                forall|j: int| 0 <= j < i && (#[trigger] self.blocks@[j]).interval_view() is Some
                    ==> exists|k: int| 0 <= k < out@.len() && out@[k].0 == j,
            decreases self.blocks.len() - i,
        {
            let ghost old_out = out@;
            if let Some(secs) = self.blocks[i].get_interval() {
                out.push((i, secs));
                assert(out@[out@.len() - 1].0 == i);
            }
            assert forall|j: int| 0 <= j < i + 1 && (#[trigger] self.blocks@[j]).interval_view()
                is Some implies exists|k: int| 0 <= k < out@.len() && out@[k].0 == j by {
                if j < i {
                    let k = choose|k: int| 0 <= k < old_out.len() && old_out[k].0 == j;
                    assert(out@[k] == old_out[k]);
                } else {
                    assert(out@[out@.len() - 1].0 == i);
                }
            }
            i = i + 1;
        }
        out
    }

    /// The status line: the outputs present, in order, joined with the delimiter.
    pub fn get_status_bar(&self) -> (r: String)
        ensures
            r@ == status_line(self.outputs(), self.delimiter()),
    {
        let ghost outs = self.outputs();
        let delimiter = &self.config.statusbar.delimiter;
        let mut out = String::new();
        let mut first = true;
        let mut i: usize = 0;
        assert(outs.take(0) =~= Seq::<Option<Seq<char>>>::empty());
        while i < self.blocks.len()
            invariant
                outs == self.blocks@.map_values(|b: Block| b.output()),
                delimiter@ == self.delimiter(),
                i <= self.blocks@.len(),
                out@ == join(present(outs.take(i as int)), delimiter@),
                first <==> present(outs.take(i as int)).len() == 0,
            decreases self.blocks.len() - i,
        {
            let ghost before = present(outs.take(i as int));
            assert(outs.take(i + 1).drop_last() =~= outs.take(i as int));
            assert(outs.take(i + 1).last() == self.blocks@[i as int].output());
            match self.blocks[i].result() {
                Some(text) => {
                    if !first {
                        out.append(delimiter.as_str());
                    } else {
                        assert(out@ + text@ =~= text@);
                    }
                    out.append(text.as_str());
                    first = false;
                    assert(before.push(text@).drop_last() =~= before);
                },
                None => {},
            }
            i = i + 1;
        }
        assert(outs.take(i as int) =~= outs);
        out
    }

    /// Ends a run of the block at position `i`: records what its command
    /// printed if it succeeded (else keeps the old output), and returns the
    /// status line to publish.
    pub fn complete_run(&mut self, i: usize, stdout: Option<&[u8]>) -> (r: String)
        requires
            old(self).wf(),
            i < old(self).blocks_view().len(),
        ensures
            final(self).wf(),
            final(self).names() == old(self).names(),
            final(self).delimiter() == old(self).delimiter(),
            final(self).blocks_view().len() == old(self).blocks_view().len(),
            final(self).outputs() == (match stdout {
                Some(out) => old(self).outputs().update(i as int, Some(kept_output(out@))),
                None => old(self).outputs(),
            }),
            forall|j: int| #![auto] 0 <= j < old(self).blocks_view().len() ==> {
                &&& final(self).blocks_view()[j].command_view() == old(self).blocks_view()[j].command_view()
                &&& final(self).blocks_view()[j].args_view() == old(self).blocks_view()[j].args_view()
                &&& final(self).blocks_view()[j].interval_view() == old(self).blocks_view()[j].interval_view()
            },
            stdout matches Some(out) ==> (valid_utf8(out@) ==> final(self).outputs()[i as int]
                == Some(line_of(decode_utf8(out@)))),
            r@ == status_line(final(self).outputs(), final(self).delimiter()),
    {
        if let Some(out) = stdout {
            self.blocks[i].set_output(out);
            assert(self.outputs() =~= old(self).outputs().update(i as int, Some(kept_output(out@))));
        }
        self.get_status_bar()
    }

    /// Decides what the event loop does on `event`, and updates which inputs
    /// are open. A tick or request runs one block; a request for an unknown
    /// name is ignored; the loop finishes once both inputs have closed, or as
    /// soon as publishing fails.
    pub fn on_event(&self, state: &mut SchedulerState, event: &SchedulerEvent) -> (r: Decision)
        requires
            self.wf(),
        ensures
            match event {
                SchedulerEvent::Tick(i) => *final(state) == *old(state) && r == (if *i
                    < self.blocks_view().len() {
                    Decision::Run(*i, BlockRunMode::Normal)
                } else {
                    Decision::Wait
                }),
                SchedulerEvent::Refresh(m) => *final(state) == *old(state) && r == (match self.position(m@.0) {
                    Some(p) => Decision::Run(p, m@.1),
                    None => Decision::Wait,
                }),
                SchedulerEvent::RefreshClosed => (*final(state), r) == close_refresh(*old(state)),
                SchedulerEvent::TicksClosed => (*final(state), r) == close_ticks(*old(state)),
                SchedulerEvent::PublishFailed => *final(state) == *old(state) && r == Decision::Finish,
            },
            r matches Decision::Run(p, _) ==> p < self.blocks_view().len(),
    {
        match event {
            SchedulerEvent::Tick(i) => {
                if *i < self.blocks.len() {
                    Decision::Run(*i, BlockRunMode::Normal)
                } else {
                    Decision::Wait
                }
            },
            SchedulerEvent::Refresh(m) => {
                match self.find(m.name().as_str()) {
                    Some(p) => Decision::Run(p, m.mode()),
                    None => Decision::Wait,
                }
            },
            SchedulerEvent::RefreshClosed => {
                state.refresh_open = false;
                if state.ticks_open {
                    Decision::Wait
                } else {
                    Decision::Finish
                }
            },
            SchedulerEvent::TicksClosed => {
                state.ticks_open = false;
                if state.refresh_open {
                    Decision::Wait
                } else {
                    Decision::Finish
                }
            },
            SchedulerEvent::PublishFailed => Decision::Finish,
        }
    }
}

/// With one block named `name` and both inputs open: a refresh request for
/// `name` decides exactly one run, of that block; the status line published
/// after it is the block's new output; and once both inputs close, in either
/// order, the loop finishes.
pub proof fn law_refresh_cycle(sb: StatusBar, st: SchedulerState, name: Seq<char>, out: Seq<u8>)
    requires
        sb.wf(),
        sb.names() == seq![name],
        st.refresh_open,
        st.ticks_open,
    ensures
        sb.position(name) == Some(0usize),
        status_line(sb.outputs().update(0, Some(kept_output(out))), sb.delimiter()) == kept_output(
            out,
        ),
        close_refresh(st).1 == Decision::Wait,
        close_ticks(close_refresh(st).0).1 == Decision::Finish,
        close_ticks(st).1 == Decision::Wait,
        close_refresh(close_ticks(st).0).1 == Decision::Finish,
{
    let es = entries(sb.index);
    assert(sb.names() == es.map_values(|e: (Seq<char>, usize)| e.0));
    assert(sb.names().len() == es.len());
    assert(es.len() == 1);
    assert(sb.names()[0] == es[0].0);
    assert(es.last().0 == name);
    let outs = sb.outputs().update(0, Some(kept_output(out)));
    assert(outs.len() == 1);
    assert(outs.drop_last() =~= Seq::<Option<Seq<char>>>::empty());
    assert(outs.last() == Some(kept_output(out)));
    assert(present(Seq::<Option<Seq<char>>>::empty()) == Seq::<Seq<char>>::empty());
    assert(present(outs) =~= seq![kept_output(out)]);
}

/// The report of the collisions held in `errors`.
fn report_collisions(errors: &IndexMap<String, usize>) -> (r: String)
    ensures
        r@ == collision_report(entries(*errors)),
{
    let ghost cs = entries(*errors);
    let n = map_len(errors);
    let mut out = String::new();
    let mut i: usize = 0;
    assert(cs.take(0) =~= Seq::<(Seq<char>, usize)>::empty());
    while i < n
        invariant
            cs == entries(*errors),
            n == cs.len(),
            i <= n,
            out@ == collision_report(cs.take(i as int)),
        decreases n - i,
    {
        if let Some((name, count)) = map_entry(errors, i) {
            out.append("Name: `");
            out.append(name.as_str());
            out.append("` occurs multiple (");
            let d = decimal_string(count as u64);
            out.append(d.as_str());
            out.append(") times");
            assert(cs.take(i + 1).drop_last() =~= cs.take(i as int));
        }
        i = i + 1;
    }
    assert(cs.take(n as int) =~= cs);
    out
}

} // verus!
