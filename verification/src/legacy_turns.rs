//! Joining restored tool calls with the authoritative history of a thread.

use vstd::prelude::*;

use crate::keyed::TextSet;
use crate::legacy_tool_history::LegacyToolRestoreOutcome;
use crate::text;

verus! {

#[derive(Clone, Copy, Debug, PartialEq, Eq, Structural)]
pub enum ThreadItemKind {
    DynamicToolCall { has_content_items: bool, has_success: bool },
    HookPrompt,
    Other,
}

/// An item of a turn: its identifier, its kind, and the rest of it as text.
pub struct ThreadItem {
    pub id: String,
    pub kind: ThreadItemKind,
    pub body: String,
}

pub struct ItemModel {
    pub id: Seq<char>,
    pub kind: ThreadItemKind,
    pub body: Seq<char>,
}

impl View for ThreadItem {
    type V = ItemModel;

    open spec fn view(&self) -> ItemModel {
        ItemModel { id: self.id@, kind: self.kind, body: self.body@ }
    }
}

#[derive(Clone, Copy, Debug, PartialEq, Eq, Structural)]
pub enum TurnStatus {
    InProgress,
    Completed,
    Interrupted,
    Failed,
}

/// What is known of a turn besides its items.
pub struct TurnState {
    pub items_view: String,
    pub error: Option<String>,
    pub status: TurnStatus,
    pub started_at: Option<i64>,
    pub completed_at: Option<i64>,
    pub duration_ms: Option<i64>,
}

pub struct TurnStateModel {
    pub items_view: Seq<char>,
    pub error: Option<Seq<char>>,
    pub status: TurnStatus,
    pub started_at: Option<i64>,
    pub completed_at: Option<i64>,
    pub duration_ms: Option<i64>,
}

impl View for TurnState {
    type V = TurnStateModel;

    open spec fn view(&self) -> TurnStateModel {
        TurnStateModel {
            items_view: self.items_view@,
            error: text::option_view(self.error),
            status: self.status,
            started_at: self.started_at,
            completed_at: self.completed_at,
            duration_ms: self.duration_ms,
        }
    }
}

pub struct Turn {
    pub id: String,
    pub items: Vec<ThreadItem>,
    pub state: TurnState,
}

pub struct TurnModel {
    pub id: Seq<char>,
    pub items: Seq<ItemModel>,
    pub state: TurnStateModel,
}

pub open spec fn items_model(items: Seq<ThreadItem>) -> Seq<ItemModel> {
    Seq::new(items.len(), |i: int| items[i]@)
}

impl View for Turn {
    type V = TurnModel;

    open spec fn view(&self) -> TurnModel {
        TurnModel { id: self.id@, items: items_model(self.items@), state: self.state@ }
    }
}

pub open spec fn turns_model(turns: Seq<Turn>) -> Seq<TurnModel> {
    Seq::new(turns.len(), |i: int| turns[i]@)
}

fn copy_item(item: &ThreadItem) -> (r: ThreadItem)
    ensures
        r == *item,
{
    ThreadItem { id: item.id.clone(), kind: item.kind, body: item.body.clone() }
}

fn copy_state(state: &TurnState) -> (r: TurnState)
    ensures
        r == *state,
{
    TurnState {
        items_view: state.items_view.clone(),
        error: text::copy_option(&state.error),
        status: state.status,
        started_at: state.started_at,
        completed_at: state.completed_at,
        duration_ms: state.duration_ms,
    }
}

/// Whether an item is one of the restored compact rows.
pub open spec fn restored_row(item: ItemModel, inserted: Set<Seq<char>>) -> bool {
    match item.kind {
        ThreadItemKind::DynamicToolCall { has_content_items, has_success } => inserted.contains(
            item.id,
        ) && !has_content_items && !has_success,
        _ => false,
    }
}

/// The items without the restored rows.
pub open spec fn baseline_items(items: Seq<ItemModel>, inserted: Set<Seq<char>>) -> Seq<ItemModel>
    decreases items.len(),
{
    if items.len() == 0 {
        Seq::empty()
    } else if restored_row(items.last(), inserted) {
        baseline_items(items.drop_last(), inserted)
    } else {
        baseline_items(items.drop_last(), inserted).push(items.last())
    }
}

/// The turns without the restored rows.
pub open spec fn baseline(turns: Seq<TurnModel>, inserted: Set<Seq<char>>) -> Seq<TurnModel> {
    Seq::new(
        turns.len(),
        |i: int| TurnModel { items: baseline_items(turns[i].items, inserted), ..turns[i] },
    )
}

fn push_item(items: &mut Vec<ThreadItem>, item: ThreadItem)
    ensures
        items_model(final(items)@) == items_model(old(items)@).push(item@),
{
    let ghost before = items@;
    items.push(item);
    proof {
        assert(items_model(items@) =~= items_model(before).push(item@));
    }
}

fn baseline_of_items(items: &Vec<ThreadItem>, inserted: &TextSet) -> (r: Vec<ThreadItem>)
    ensures
        items_model(r@) == baseline_items(items_model(items@), inserted@),
{
    let ghost all = items_model(items@);
    let mut kept: Vec<ThreadItem> = Vec::new();
    let mut i: usize = 0;
    proof {
        assert(items_model(kept@) =~= Seq::empty());
    }
    while i < items.len()
        invariant
            i <= items@.len(),
            all == items_model(items@),
            items_model(kept@) == baseline_items(all.take(i as int), inserted@),
        decreases items@.len() - i,
    {
        proof {
            assert(all.take(i + 1).drop_last() =~= all.take(i as int));
            assert(all.take(i + 1).last() == items@[i as int]@);
        }
        let item = &items[i];
        let restored = match item.kind {
            ThreadItemKind::DynamicToolCall { has_content_items, has_success } => inserted.contains(
                item.id.as_str(),
            ) && !has_content_items && !has_success,
            _ => false,
        };
        if !restored {
            push_item(&mut kept, copy_item(item));
        }
        i += 1;
    }
    proof {
        assert(all.take(items@.len() as int) =~= all);
    }
    kept
}

pub fn baseline_turns(turns: &Vec<Turn>, inserted_call_ids: &TextSet) -> (r: Vec<Turn>)
    ensures
        turns_model(r@) == baseline(turns_model(turns@), inserted_call_ids@),
{
    let ghost all = baseline(turns_model(turns@), inserted_call_ids@);
    let mut out: Vec<Turn> = Vec::new();
    let mut i: usize = 0;
    while i < turns.len()
        invariant
            i <= turns@.len(),
            all == baseline(turns_model(turns@), inserted_call_ids@),
            out@.len() == i,
            forall|j: int| 0 <= j < i ==> (#[trigger] out@[j])@ == all[j],
        decreases turns@.len() - i,
    {
        let turn = &turns[i];
        out.push(
            Turn {
                id: turn.id.clone(),
                items: baseline_of_items(&turn.items, inserted_call_ids),
                state: copy_state(&turn.state),
            },
        );
        i += 1;
    }
    proof {
        assert(turns_model(out@) =~= all);
    }
    out
}

/// The first item with an identifier, or the number of items.
pub open spec fn item_index(items: Seq<ItemModel>, id: Seq<char>) -> int
    decreases items.len(),
{
    if items.len() == 0 || items[0].id == id {
        0
    } else {
        1 + item_index(items.skip(1), id)
    }
}

pub open spec fn has_item(items: Seq<ItemModel>, id: Seq<char>) -> bool {
    item_index(items, id) < items.len()
}

pub proof fn lemma_item_index(items: Seq<ItemModel>, id: Seq<char>)
    ensures
        0 <= item_index(items, id) <= items.len(),
        item_index(items, id) < items.len() ==> items[item_index(items, id)].id == id,
        forall|k: int| 0 <= k < item_index(items, id) ==> (#[trigger] items[k]).id != id,
    decreases items.len(),
{
    if items.len() > 0 && items[0].id != id {
        let rest = items.skip(1);
        lemma_item_index(rest, id);
        assert forall|k: int| 0 <= k < item_index(items, id) implies (#[trigger] items[k]).id
            != id by {
            if k > 0 {
                assert(rest[k - 1] == items[k]);
            }
        }
    }
}

fn find_item(items: &Vec<ThreadItem>, id: &str) -> (r: usize)
    ensures
        r == item_index(items_model(items@), id@),
        r <= items@.len(),
{
    let ghost all = items_model(items@);
    let mut i: usize = 0;
    proof {
        assert(all.skip(0) =~= all);
    }
    while i < items.len() && !text::text_is(items[i].id.as_str(), id)
        invariant
            i <= items@.len(),
            all == items_model(items@),
            i + item_index(all.skip(i as int), id@) == item_index(all, id@),
        decreases items@.len() - i,
    {
        proof {
            assert(all.skip(i as int)[0] == all[i as int]);
            assert(all.skip(i as int).skip(1) =~= all.skip(i + 1));
        }
        i += 1;
    }
    proof {
        if i < items@.len() {
            assert(all.skip(i as int)[0] == all[i as int]);
        }
    }
    i
}

/// The place behind the nearest item before `k` that is known.
pub open spec fn place_after_predecessor(
    items: Seq<ItemModel>,
    authoritative: Seq<ItemModel>,
    k: int,
) -> Option<int>
    decreases k,
{
    if k <= 0 {
        None
    } else if has_item(items, authoritative[k - 1].id) {
        Some(item_index(items, authoritative[k - 1].id) + 1)
    } else {
        place_after_predecessor(items, authoritative, k - 1)
    }
}

/// The place of the nearest item from `k` on that is known.
pub open spec fn place_of_successor(
    items: Seq<ItemModel>,
    authoritative: Seq<ItemModel>,
    k: int,
) -> Option<int>
    decreases authoritative.len() - k,
{
    if k >= authoritative.len() {
        None
    } else if has_item(items, authoritative[k].id) {
        Some(item_index(items, authoritative[k].id))
    } else {
        place_of_successor(items, authoritative, k + 1)
    }
}

/// Where the authoritative item `k` belongs among the items.
pub open spec fn place_for(items: Seq<ItemModel>, authoritative: Seq<ItemModel>, k: int) -> int {
    match place_after_predecessor(items, authoritative, k) {
        Some(place) => place,
        None => match place_of_successor(items, authoritative, k + 1) {
            Some(place) => place,
            None => items.len() as int,
        },
    }
}

/// The items with the hook prompts among the first `n` authoritative items that were missing.
pub open spec fn with_prompts(
    items: Seq<ItemModel>,
    authoritative: Seq<ItemModel>,
    n: int,
) -> Seq<ItemModel>
    decreases n,
{
    if n <= 0 {
        items
    } else {
        let before = with_prompts(items, authoritative, n - 1);
        let item = authoritative[n - 1];
        if item.kind != ThreadItemKind::HookPrompt || has_item(before, item.id) {
            before
        } else {
            before.insert(place_for(before, authoritative, n - 1), item)
        }
    }
}

fn find_place(items: &Vec<ThreadItem>, authoritative: &Vec<ThreadItem>, k: usize) -> (r: usize)
    requires
        k < authoritative@.len(),
    ensures
        r == place_for(items_model(items@), items_model(authoritative@), k as int),
        r <= items@.len(),
{
    let ghost all = items_model(items@);
    let ghost auth = items_model(authoritative@);
    let mut j: usize = k;
    while j > 0
        invariant
            j <= k < authoritative@.len(),
            all == items_model(items@),
            auth == items_model(authoritative@),
            place_after_predecessor(all, auth, j as int) == place_after_predecessor(
                all,
                auth,
                k as int,
            ),
        decreases j,
    {
        let at = find_item(items, authoritative[j - 1].id.as_str());
        if at < items.len() {
            return at + 1;
        }
        j -= 1;
    }
    let count: usize = authoritative.len();
    let mut m: usize = k + 1;
    while m < count
        invariant
            count == authoritative@.len(),
            k < m <= count,
            all == items_model(items@),
            auth == items_model(authoritative@),
            place_after_predecessor(all, auth, k as int) is None,
            place_of_successor(all, auth, m as int) == place_of_successor(all, auth, k + 1),
        decreases authoritative@.len() - m,
    {
        let at = find_item(items, authoritative[m].id.as_str());
        if at < items.len() {
            return at;
        }
        m += 1;
    }
    items.len()
}

fn insert_prompts(items: Vec<ThreadItem>, authoritative: &Vec<ThreadItem>) -> (r: Vec<ThreadItem>)
    ensures
        items_model(r@) == with_prompts(
            items_model(items@),
            items_model(authoritative@),
            authoritative@.len() as int,
        ),
{
    let ghost base = items_model(items@);
    let ghost auth = items_model(authoritative@);
    let mut out = items;
    let mut k: usize = 0;
    while k < authoritative.len()
        invariant
            k <= authoritative@.len(),
            auth == items_model(authoritative@),
            items_model(out@) == with_prompts(base, auth, k as int),
        decreases authoritative@.len() - k,
    {
        let item = &authoritative[k];
        if item.kind == ThreadItemKind::HookPrompt && find_item(&out, item.id.as_str())
            >= out.len() {
            let at = find_place(&out, authoritative, k);
            let ghost before = out@;
            out.insert(at, copy_item(item));
            proof {
                assert(items_model(out@) =~= items_model(before).insert(at as int, item@));
            }
        }
        k += 1;
    }
    out
}

/// The first turn with an identifier, or the number of turns.
pub open spec fn turn_index(turns: Seq<TurnModel>, id: Seq<char>) -> int
    decreases turns.len(),
{
    if turns.len() == 0 || turns[0].id == id {
        0
    } else {
        1 + turn_index(turns.skip(1), id)
    }
}

fn find_turn(turns: &Vec<Turn>, id: &str) -> (r: usize)
    ensures
        r == turn_index(turns_model(turns@), id@),
        r <= turns@.len(),
{
    let ghost all = turns_model(turns@);
    let mut i: usize = 0;
    proof {
        assert(all.skip(0) =~= all);
    }
    while i < turns.len() && !text::text_is(turns[i].id.as_str(), id)
        invariant
            i <= turns@.len(),
            all == turns_model(turns@),
            i + turn_index(all.skip(i as int), id@) == turn_index(all, id@),
        decreases turns@.len() - i,
    {
        proof {
            assert(all.skip(i as int)[0] == all[i as int]);
            assert(all.skip(i as int).skip(1) =~= all.skip(i + 1));
        }
        i += 1;
    }
    proof {
        if i < turns@.len() {
            assert(all.skip(i as int)[0] == all[i as int]);
        }
    }
    i
}

/// The rebuilt turns with the hook prompts of the first `n` authoritative turns.
pub open spec fn with_hook_prompts(
    rebuilt: Seq<TurnModel>,
    authoritative: Seq<TurnModel>,
    n: int,
) -> Seq<TurnModel>
    decreases n,
{
    if n <= 0 {
        rebuilt
    } else {
        let before = with_hook_prompts(rebuilt, authoritative, n - 1);
        let turn = authoritative[n - 1];
        let i = turn_index(before, turn.id);
        if 0 <= i < before.len() {
            before.update(
                i,
                TurnModel {
                    items: with_prompts(before[i].items, turn.items, turn.items.len() as int),
                    ..before[i]
                },
            )
        } else {
            before
        }
    }
}

pub fn merge_authoritative_hook_prompts(rebuilt: &mut Vec<Turn>, authoritative: &Vec<Turn>)
    ensures
        turns_model(final(rebuilt)@) == with_hook_prompts(
            turns_model(old(rebuilt)@),
            turns_model(authoritative@),
            authoritative@.len() as int,
        ),
{
    let ghost base = turns_model(rebuilt@);
    let ghost auth = turns_model(authoritative@);
    let mut n: usize = 0;
    while n < authoritative.len()
        invariant
            n <= authoritative@.len(),
            auth == turns_model(authoritative@),
            turns_model(rebuilt@) == with_hook_prompts(base, auth, n as int),
        decreases authoritative@.len() - n,
    {
        let turn = &authoritative[n];
        let i = find_turn(rebuilt, turn.id.as_str());
        if i < rebuilt.len() {
            let ghost before = rebuilt@;
            let old_turn = rebuilt.remove(i);
            let next = Turn {
                id: old_turn.id,
                items: insert_prompts(old_turn.items, &turn.items),
                state: old_turn.state,
            };
            rebuilt.insert(i, next);
            proof {
                assert(turns_model(rebuilt@) =~= turns_model(before).update(i as int, next@));
            }
        }
        n += 1;
    }
}

/// The rebuilt turns with the state of the authoritative turn of the same identifier.
pub open spec fn with_turn_state(rebuilt: Seq<TurnModel>, authoritative: Seq<TurnModel>) -> Seq<
    TurnModel,
> {
    Seq::new(
        rebuilt.len(),
        |i: int|
            {
                let k = turn_index(authoritative, rebuilt[i].id);
                if 0 <= k < authoritative.len() {
                    TurnModel { state: authoritative[k].state, ..rebuilt[i] }
                } else {
                    rebuilt[i]
                }
            },
    )
}

pub fn merge_authoritative_turn_state(rebuilt: &mut Vec<Turn>, authoritative: &Vec<Turn>)
    ensures
        turns_model(final(rebuilt)@) == with_turn_state(
            turns_model(old(rebuilt)@),
            turns_model(authoritative@),
        ),
{
    let ghost base = turns_model(rebuilt@);
    let ghost all = with_turn_state(base, turns_model(authoritative@));
    let mut i: usize = 0;
    while i < rebuilt.len()
        invariant
            i <= rebuilt@.len(),
            rebuilt@.len() == base.len(),
            all == with_turn_state(base, turns_model(authoritative@)),
            forall|j: int| 0 <= j < i ==> (#[trigger] rebuilt@[j])@ == all[j],
            forall|j: int| i <= j < base.len() ==> (#[trigger] rebuilt@[j])@ == base[j],
        decreases rebuilt@.len() - i,
    {
        let k = find_turn(authoritative, rebuilt[i].id.as_str());
        if k < authoritative.len() {
            let ghost before = rebuilt@;
            let old_turn = rebuilt.remove(i);
            let next = Turn {
                id: old_turn.id,
                items: old_turn.items,
                state: copy_state(&authoritative[k].state),
            };
            rebuilt.insert(i, next);
            proof {
                assert(rebuilt@ =~= before.update(i as int, next));
            }
        }
        i += 1;
    }
    proof {
        assert(turns_model(rebuilt@) =~= all);
    }
}

fn same_item(a: &ThreadItem, b: &ThreadItem) -> (r: bool)
    ensures
        r == (a@ == b@),
{
    text::text_is(a.id.as_str(), b.id.as_str()) && a.kind == b.kind && text::text_is(
        a.body.as_str(),
        b.body.as_str(),
    )
}

fn same_option(a: &Option<String>, b: &Option<String>) -> (r: bool)
    ensures
        r == (text::option_view(*a) == text::option_view(*b)),
{
    match (a, b) {
        (Some(x), Some(y)) => text::text_is(x.as_str(), y.as_str()),
        (None, None) => true,
        _ => false,
    }
}

fn same_time(a: Option<i64>, b: Option<i64>) -> (r: bool)
    ensures
        r == (a == b),
{
    match (a, b) {
        (Some(x), Some(y)) => x == y,
        (None, None) => true,
        _ => false,
    }
}

fn same_state(a: &TurnState, b: &TurnState) -> (r: bool)
    ensures
        r == (a@ == b@),
{
    text::text_is(a.items_view.as_str(), b.items_view.as_str()) && same_option(&a.error, &b.error)
        && a.status == b.status && same_time(a.started_at, b.started_at) && same_time(
        a.completed_at,
        b.completed_at,
    ) && same_time(a.duration_ms, b.duration_ms)
}

fn same_items(a: &Vec<ThreadItem>, b: &Vec<ThreadItem>) -> (r: bool)
    ensures
        r == (items_model(a@) == items_model(b@)),
{
    let ghost x = items_model(a@);
    let ghost y = items_model(b@);
    if a.len() != b.len() {
        proof {
            assert(x.len() != y.len());
        }
        return false;
    }
    let mut i: usize = 0;
    while i < a.len()
        invariant
            i <= a@.len(),
            a@.len() == b@.len(),
            x == items_model(a@),
            y == items_model(b@),
            forall|j: int| 0 <= j < i ==> x[j] == y[j],
        decreases a@.len() - i,
    {
        if !same_item(&a[i], &b[i]) {
            proof {
                assert(x[i as int] != y[i as int]);
            }
            return false;
        }
        i += 1;
    }
    proof {
        assert(x =~= y);
    }
    true
}

fn same_turns(a: &Vec<Turn>, b: &Vec<Turn>) -> (r: bool)
    ensures
        r == (turns_model(a@) == turns_model(b@)),
{
    let ghost x = turns_model(a@);
    let ghost y = turns_model(b@);
    if a.len() != b.len() {
        proof {
            assert(x.len() != y.len());
        }
        return false;
    }
    let mut i: usize = 0;
    while i < a.len()
        invariant
            i <= a@.len(),
            a@.len() == b@.len(),
            x == turns_model(a@),
            y == turns_model(b@),
            forall|j: int| 0 <= j < i ==> x[j] == y[j],
        decreases a@.len() - i,
    {
        let same = text::text_is(a[i].id.as_str(), b[i].id.as_str()) && same_items(
            &a[i].items,
            &b[i].items,
        ) && same_state(&a[i].state, &b[i].state);
        if !same {
            proof {
                assert(x[i as int] != y[i as int]);
            }
            return false;
        }
        i += 1;
    }
    proof {
        assert(x =~= y);
    }
    true
}

/// What was rebuilt from a rollout.
pub struct LegacyToolReplay {
    pub turns: Vec<Turn>,
    pub inserted_call_ids: TextSet,
    pub turn_assignment_conflict: bool,
}

/// How a restoration begins.
#[derive(Clone, Copy, Debug, PartialEq, Eq, Structural)]
pub enum RestoreStart {
    /// Nothing is tried, and nothing is counted.
    Skip,
    /// The try ends here and is counted.
    InvalidThread,
    /// The rollout is to be read.
    ReadRollout,
}

pub open spec fn turn_in_progress(turns: Seq<TurnModel>) -> bool {
    exists|i: int| 0 <= i < turns.len() && (#[trigger] turns[i]).state.status
        == TurnStatus::InProgress
}

/// How a restoration begins.
pub open spec fn restore_start(
    embedded: bool,
    legacy_history: bool,
    turns: Seq<TurnModel>,
    has_path: bool,
    thread_id_is_valid: bool,
) -> RestoreStart {
    if !embedded || !legacy_history || turn_in_progress(turns) || !has_path {
        RestoreStart::Skip
    } else if !thread_id_is_valid {
        RestoreStart::InvalidThread
    } else {
        RestoreStart::ReadRollout
    }
}

/// Decides whether a local rollout is read: only for an embedded server, a legacy thread without
/// a running turn, and a known path.
pub fn begin_restore(
    embedded: bool,
    legacy_history: bool,
    turns: &Vec<Turn>,
    has_path: bool,
    thread_id_is_valid: bool,
) -> (r: RestoreStart)
    ensures
        r == restore_start(
            embedded,
            legacy_history,
            turns_model(turns@),
            has_path,
            thread_id_is_valid,
        ),
{
    let ghost all = turns_model(turns@);
    if !embedded || !legacy_history {
        return RestoreStart::Skip;
    }
    let mut i: usize = 0;
    while i < turns.len()
        invariant
            i <= turns@.len(),
            all == turns_model(turns@),
            embedded && legacy_history,
            forall|j: int|
                0 <= j < i ==> (#[trigger] all[j]).state.status != TurnStatus::InProgress,
        decreases turns@.len() - i,
    {
        if turns[i].state.status == TurnStatus::InProgress {
            proof {
                assert(all[i as int].state.status == TurnStatus::InProgress);
            }
            return RestoreStart::Skip;
        }
        i += 1;
    }
    if !has_path {
        RestoreStart::Skip
    } else if !thread_id_is_valid {
        RestoreStart::InvalidThread
    } else {
        RestoreStart::ReadRollout
    }
}

/// How a restoration ends: what is counted beside the try, and the turns that take the place of
/// the thread's own, if any do.
pub struct RestoreEnd {
    pub outcome: Option<LegacyToolRestoreOutcome>,
    pub turns: Option<Vec<Turn>>,
}

/// The rebuilt turns with everything that only the authoritative history knows.
pub open spec fn reconciled(rebuilt: Seq<TurnModel>, authoritative: Seq<TurnModel>) -> Seq<
    TurnModel,
> {
    with_turn_state(
        with_hook_prompts(rebuilt, authoritative, authoritative.len() as int),
        authoritative,
    )
}

/// How a restoration ends.
pub open spec fn restore_ends(
    thread: Seq<TurnModel>,
    replay: Option<LegacyToolReplay>,
    r: RestoreEnd,
) -> bool {
    match replay {
        None => r.outcome == Some(LegacyToolRestoreOutcome::RestoreReadFailure) && r.turns
            is None,
        Some(rebuilt) => {
            let merged = reconciled(turns_model(rebuilt.turns@), thread);
            let inserted = rebuilt.inserted_call_ids@;
            if rebuilt.turn_assignment_conflict {
                r.outcome == Some(LegacyToolRestoreOutcome::TurnAssignmentConflict) && r.turns
                    is None
            } else if inserted =~= Set::<Seq<char>>::empty() {
                r.outcome is None && r.turns is None
            } else if baseline(merged, inserted) == baseline(
                thread,
                inserted,
            ) {
                r.outcome == Some(LegacyToolRestoreOutcome::RestoreSuccess) && (
                r.turns matches Some(turns) && turns_model(turns@) == merged)
            } else {
                r.outcome == Some(LegacyToolRestoreOutcome::BaselineMismatch) && r.turns
                    is None
            }
        },
    }
}

/// Decides whether rebuilt turns may take the place of the thread's own: only where, the restored
/// rows aside, both are the same.
pub fn finish_restore(thread_turns: &Vec<Turn>, replay: Option<LegacyToolReplay>) -> (r: RestoreEnd)
    ensures
        restore_ends(turns_model(thread_turns@), replay, r),
{
    let rebuilt = match replay {
        None => {
            return RestoreEnd {
                outcome: Some(LegacyToolRestoreOutcome::RestoreReadFailure),
                turns: None,
            };
        },
        Some(rebuilt) => rebuilt,
    };
    if rebuilt.turn_assignment_conflict {
        return RestoreEnd {
            outcome: Some(LegacyToolRestoreOutcome::TurnAssignmentConflict),
            turns: None,
        };
    }
    if rebuilt.inserted_call_ids.is_empty() {
        return RestoreEnd { outcome: None, turns: None };
    }
    let mut turns = rebuilt.turns;
    merge_authoritative_hook_prompts(&mut turns, thread_turns);
    merge_authoritative_turn_state(&mut turns, thread_turns);
    let expected = baseline_turns(thread_turns, &rebuilt.inserted_call_ids);
    let found = baseline_turns(&turns, &rebuilt.inserted_call_ids);
    if !same_turns(&found, &expected) {
        return RestoreEnd {
            outcome: Some(LegacyToolRestoreOutcome::BaselineMismatch),
            turns: None,
        };
    }
    RestoreEnd { outcome: Some(LegacyToolRestoreOutcome::RestoreSuccess), turns: Some(turns) }
}

/// The items whose identifiers occur in a base.
pub open spec fn known_in(items: Seq<ItemModel>, base: Seq<ItemModel>) -> Seq<ItemModel>
    decreases items.len(),
{
    if items.len() == 0 {
        Seq::empty()
    } else if has_item(base, items.last().id) {
        known_in(items.drop_last(), base).push(items.last())
    } else {
        known_in(items.drop_last(), base)
    }
}

proof fn lemma_known_concat(a: Seq<ItemModel>, b: Seq<ItemModel>, base: Seq<ItemModel>)
    ensures
        known_in(a + b, base) == known_in(a, base) + known_in(b, base),
    decreases b.len(),
{
    if b.len() == 0 {
        assert(a + b =~= a);
        assert(known_in(a, base) + known_in(b, base) =~= known_in(a, base));
    } else {
        assert((a + b).drop_last() =~= a + b.drop_last());
        assert((a + b).last() == b.last());
        lemma_known_concat(a, b.drop_last(), base);
        assert(known_in(a + b, base) =~= known_in(a, base) + known_in(b, base));
    }
}

proof fn lemma_known_insert(
    items: Seq<ItemModel>,
    at: int,
    item: ItemModel,
    base: Seq<ItemModel>,
)
    requires
        0 <= at <= items.len(),
        !has_item(base, item.id),
    ensures
        known_in(items.insert(at, item), base) == known_in(items, base),
{
    let a = items.take(at);
    let b = items.skip(at);
    let one = seq![item];
    assert(items.insert(at, item) =~= (a + one) + b);
    assert(items =~= a + b);
    lemma_known_concat(a, b, base);
    lemma_known_concat(a + one, b, base);
    lemma_known_concat(a, one, base);
    assert(one.drop_last() =~= Seq::empty());
    reveal_with_fuel(known_in, 2);
    assert(known_in(one, base) =~= Seq::empty());
    assert(known_in(a, base) + Seq::<ItemModel>::empty() =~= known_in(a, base));
}

proof fn lemma_known_self(items: Seq<ItemModel>, base: Seq<ItemModel>)
    requires
        forall|k: int| 0 <= k < items.len() ==> has_item(base, (#[trigger] items[k]).id),
    ensures
        known_in(items, base) == items,
    decreases items.len(),
{
    if items.len() > 0 {
        let shorter = items.drop_last();
        assert forall|k: int| 0 <= k < shorter.len() implies has_item(
            base,
            (#[trigger] shorter[k]).id,
        ) by {
            assert(shorter[k] == items[k]);
        }
        lemma_known_self(shorter, base);
        assert(has_item(base, items[items.len() - 1].id));
        assert(shorter.push(items.last()) =~= items);
    }
}

proof fn lemma_place_bounds(items: Seq<ItemModel>, authoritative: Seq<ItemModel>, k: int)
    requires
        0 <= k < authoritative.len(),
    ensures
        0 <= place_for(items, authoritative, k) <= items.len(),
{
    lemma_predecessor_bounds(items, authoritative, k);
    lemma_successor_bounds(items, authoritative, k + 1);
}

proof fn lemma_predecessor_bounds(items: Seq<ItemModel>, authoritative: Seq<ItemModel>, k: int)
    ensures
        place_after_predecessor(items, authoritative, k) matches Some(place) ==> 0 <= place
            <= items.len(),
    decreases k,
{
    if k > 0 {
        lemma_item_index(items, authoritative[k - 1].id);
        lemma_predecessor_bounds(items, authoritative, k - 1);
    }
}

proof fn lemma_successor_bounds(items: Seq<ItemModel>, authoritative: Seq<ItemModel>, k: int)
    ensures
        place_of_successor(items, authoritative, k) matches Some(place) ==> 0 <= place
            <= items.len(),
    decreases authoritative.len() - k,
{
    if k < authoritative.len() {
        lemma_item_index(items, authoritative[k].id);
        lemma_successor_bounds(items, authoritative, k + 1);
    }
}

proof fn lemma_has_item_witness(items: Seq<ItemModel>, k: int, id: Seq<char>)
    requires
        0 <= k < items.len(),
        items[k].id == id,
    ensures
        has_item(items, id),
{
    lemma_item_index(items, id);
}

proof fn lemma_prompts_keep_base(items: Seq<ItemModel>, authoritative: Seq<ItemModel>, n: int)
    requires
        0 <= n <= authoritative.len(),
    ensures
        known_in(with_prompts(items, authoritative, n), items) == items,
        forall|id: Seq<char>|
            has_item(items, id) ==> #[trigger] has_item(
                with_prompts(items, authoritative, n),
                id,
            ),
    decreases n,
{
    if n == 0 {
        assert forall|k: int| 0 <= k < items.len() implies has_item(
            items,
            (#[trigger] items[k]).id,
        ) by {
            lemma_has_item_witness(items, k, items[k].id);
        }
        lemma_known_self(items, items);
    } else {
        lemma_prompts_keep_base(items, authoritative, n - 1);
        let before = with_prompts(items, authoritative, n - 1);
        let item = authoritative[n - 1];
        if item.kind == ThreadItemKind::HookPrompt && !has_item(before, item.id) {
            let at = place_for(before, authoritative, n - 1);
            let after = with_prompts(items, authoritative, n);
            lemma_place_bounds(before, authoritative, n - 1);
            if has_item(items, item.id) {
                assert(has_item(before, item.id));
            }
            lemma_known_insert(before, at, item, items);
            assert forall|id: Seq<char>| has_item(items, id) implies #[trigger] has_item(
                after,
                id,
            ) by {
                assert(has_item(before, id));
                lemma_item_index(before, id);
                let k = item_index(before, id);
                let moved = if k < at {
                    k
                } else {
                    k + 1
                };
                assert(after[moved] == before[k]);
                lemma_has_item_witness(after, moved, id);
            }
        }
    }
}

/// Merging hook prompts only adds: the items that were there stay, in their order, and every
/// added item is new.
pub proof fn law_merging_prompts_only_adds(items: Seq<ItemModel>, authoritative: Seq<ItemModel>)
    ensures
        known_in(
            with_prompts(items, authoritative, authoritative.len() as int),
            items,
        ) == items,
{
    lemma_prompts_keep_base(items, authoritative, authoritative.len() as int);
}

} // verus!
