//! State and decisions of the application layer, kept apart from the
//! rendering around them: the input box and its submit action, the
//! completion toggle, the daily task filter and the history grouping.

use vstd::prelude::*;

verus! {

use crate::store::{Store, StoreError};
use crate::task::{now_secs, utc_date_of, Task, MAX_TIMESTAMP};

/// Window-chrome state: the flag for the deferred history view and the
/// store the history is read from.
pub struct AppFrame {
    pub show_deferred_history: bool,
    pub store: Store,
}

impl AppFrame {
    pub fn new(store: Store) -> (r: AppFrame)
        ensures
            r.show_deferred_history == false,
            r.store == store,
    {
        AppFrame { show_deferred_history: false, store }
    }
}

/// Main-window state: the text being typed and the store behind the
/// task list.
pub struct MyApp {
    pub new_task: String,
    pub store: Store,
    pub app_frame: AppFrame,
}

impl MyApp {
    pub fn new(store: Store, app_frame: AppFrame) -> (r: MyApp)
        ensures
            r.new_task@ == Seq::<char>::empty(),
            r.store == store,
            r.app_frame == app_frame,
    {
        MyApp { new_task: String::new(), store, app_frame }
    }

    /// The submit action: a fresh task is built from the typed text,
    /// the input box is cleared, and the task is stored.
    pub fn submit_new_task(&mut self) -> (r: Result<Task, StoreError>)
        requires
            old(self).store.inv(),
        ensures
            final(self).store.inv(),
            final(self).new_task@ == Seq::<char>::empty(),
            final(self).app_frame == old(self).app_frame,
            r matches Ok(t) ==> {
                &&& t@.description == old(self).new_task@
                &&& t@.completed == false
                &&& t@.completed_at == 0
                &&& t@.wf()
                &&& !old(self).store@.dom().contains(t@.id)
                &&& final(self).store@ == old(self).store@.insert(t@.id, t@)
            },
            r is Err ==> final(self).store@ == old(self).store@,
    {
        let task = crate::task::Task::new(self.new_task.clone());
        self.new_task = String::new();
        match self.store.add_task(&task) {
            Ok(()) => Ok(task),
            Err(e) => Err(e),
        }
    }

    /// The checkbox action: the task's completion is set at the
    /// current clock and the change persisted.  The record keyed by
    /// the task's id is overwritten; an id no longer stored is a
    /// silent no-op, as in `update_task`.
    pub fn set_task_completed(&mut self, task: &mut Task, completed: bool) -> (r: Result<
        (),
        StoreError,
    >)
        requires
            old(self).store.inv(),
        ensures
            final(self).store.inv(),
            final(self).new_task == old(self).new_task,
            final(self).app_frame == old(self).app_frame,
            exists|now: u64|
                1 <= now && final(task)@ == #[trigger] old(task)@.with_completion(completed, now),
            final(task)@.completion_consistent(),
            final(task)@.completed == completed,
            !completed ==> final(task)@.completed_at == 0,
            r is Ok ==> final(self).store@ == (if old(self).store@.dom().contains(old(task)@.id) {
                old(self).store@.insert(old(task)@.id, final(task)@)
            } else {
                old(self).store@
            }),
            r is Err ==> final(self).store@ == old(self).store@,
    {
        let now_raw = now_secs();
        let now = if now_raw == 0 {
            1
        } else {
            now_raw
        };
        task.set_completed(completed, now);
        self.store.update_task(task)
    }
}

/// Whether the daily list shows a task: everything unfinished, plus
/// everything created on the given day, finished or not.
pub open spec fn visible_in_daily_list(t: Task, today: Seq<char>) -> bool {
    !t.completed || t.created_at_date@ == today
}

/// The daily-list predicate for one day, as a value `filter` can take.
pub open spec fn daily_pred(today: Seq<char>) -> spec_fn(Task) -> bool {
    |t: Task| visible_in_daily_list(t, today)
}

proof fn lemma_filter_push<A>(s: Seq<A>, p: spec_fn(A) -> bool, x: A)
    ensures
        s.push(x).filter(p) == (if p(x) {
            s.filter(p).push(x)
        } else {
            s.filter(p)
        }),
{
    assert(s.push(x).drop_last() =~= s);
    assert(s.push(x).last() == x);
    reveal(Seq::filter);
}

/// The tasks the main window lists for a given day, in stored order:
/// the unfinished ones and the ones created that day.  The cached date
/// field decides, which by the record invariant is the date derived
/// from the creation time.
pub fn visible_tasks(tasks: &Vec<Task>, today: &str) -> (r: Vec<Task>)
    ensures
        r@ == tasks@.filter(daily_pred(today@)),
{
    let mut r: Vec<Task> = Vec::new();
    proof {
        reveal(Seq::filter);
        assert(tasks@.take(0).filter(daily_pred(today@)) =~= Seq::<Task>::empty());
    }
    let mut i: usize = 0;
    while i < tasks.len()
        invariant
            i <= tasks@.len(),
            r@ == tasks@.take(i as int).filter(daily_pred(today@)),
        decreases tasks@.len() - i,
    {
        let t = &tasks[i];
        let keep = if !t.completed {
            true
        } else {
            t.created_at_date == today.to_owned()
        };
        proof {
            assert(keep == daily_pred(today@)(tasks@[i as int]));
            assert(tasks@.take(i + 1) =~= tasks@.take(i as int).push(tasks@[i as int]));
            lemma_filter_push(tasks@.take(i as int), daily_pred(today@), tasks@[i as int]);
        }
        if keep {
            r.push(tasks[i].clone());
        }
        i = i + 1;
    }
    proof {
        assert(tasks@.take(tasks@.len() as int) =~= tasks@);
    }
    r
}

// ---------------------------------------------------------------------
// The history view: tasks grouped by their calendar date, newest date
// first.
// ---------------------------------------------------------------------

/// Strict lexicographic order on character sequences, by scalar value.
/// On `YYYY-MM-DD` strings it is the calendar order.
pub open spec fn lex_lt(a: Seq<char>, b: Seq<char>) -> bool
    decreases a.len(),
{
    if b.len() == 0 {
        false
    } else if a.len() == 0 {
        true
    } else if (a[0] as u32) < (b[0] as u32) {
        true
    } else if a[0] != b[0] {
        false
    } else {
        lex_lt(a.drop_first(), b.drop_first())
    }
}

proof fn lemma_lex_total(a: Seq<char>, b: Seq<char>)
    ensures
        !lex_lt(a, b) && !lex_lt(b, a) ==> a == b,
    decreases a.len(),
{
    if !lex_lt(a, b) && !lex_lt(b, a) {
        if b.len() == 0 {
            assert(a.len() == 0);
            assert(a =~= b);
        } else if a.len() == 0 {
        } else {
            assert(a[0] as u32 == b[0] as u32);
            vstd::utf8::char_u32_cast(a[0], a[0] as u32);
            vstd::utf8::char_u32_cast(b[0], a[0] as u32);
            assert(a[0] == b[0]);
            lemma_lex_total(a.drop_first(), b.drop_first());
            assert(a =~= seq![a[0]] + a.drop_first());
            assert(b =~= seq![b[0]] + b.drop_first());
        }
    }
}

proof fn lemma_lex_trans(a: Seq<char>, b: Seq<char>, c: Seq<char>)
    requires
        lex_lt(a, b),
        lex_lt(b, c),
    ensures
        lex_lt(a, c),
    decreases a.len(),
{
    if a.len() == 0 {
    } else {
        if (a[0] as u32) < (b[0] as u32) {
            if !((b[0] as u32) < (c[0] as u32)) {
                assert(b[0] == c[0]);
            }
        } else {
            assert(a[0] == b[0]);
            if !((b[0] as u32) < (c[0] as u32)) {
                assert(b[0] == c[0]);
                lemma_lex_trans(a.drop_first(), b.drop_first(), c.drop_first());
            }
        }
    }
}

fn string_eq(a: &String, b: &String) -> (r: bool)
    ensures
        r == (a@ == b@),
{
    *a == *b
}

fn string_lt(a: &String, b: &String) -> (r: bool)
    ensures
        r == lex_lt(a@, b@),
{
    let av = crate::text::chars_of(a.as_str());
    let bv = crate::text::chars_of(b.as_str());
    proof {
        assert(av@.skip(0) =~= a@);
        assert(bv@.skip(0) =~= b@);
    }
    let mut i: usize = 0;
    loop
        invariant
            i <= av@.len(),
            i <= bv@.len(),
            av@ == a@,
            bv@ == b@,
            lex_lt(a@, b@) == lex_lt(av@.skip(i as int), bv@.skip(i as int)),
        decreases av@.len() - i,
    {
        if i == av.len() {
            return i < bv.len();
        }
        if i == bv.len() {
            return false;
        }
        let ca = av[i];
        let cb = bv[i];
        if (ca as u32) < (cb as u32) {
            return true;
        }
        if ca != cb {
            return false;
        }
        proof {
            assert(av@.skip(i as int).drop_first() =~= av@.skip(i + 1));
            assert(bv@.skip(i as int).drop_first() =~= bv@.skip(i + 1));
        }
        i = i + 1;
    }
}

/// Whether some key in `ks` reads `v`.
pub open spec fn contains_view(ks: Seq<String>, v: Seq<char>) -> bool {
    exists|g: int| 0 <= g < ks.len() && (#[trigger] ks[g])@ == v
}

/// Whether some task in `ts` was created on the date `v`.
pub open spec fn some_task_has_date(ts: Seq<Task>, v: Seq<char>) -> bool {
    exists|j: int| 0 <= j < ts.len() && (#[trigger] ts[j]).created_at_date@ == v
}

/// Every task's date is among the keys.
pub open spec fn keys_cover(ks: Seq<String>, ts: Seq<Task>) -> bool {
    forall|j: int| 0 <= j < ts.len() ==> contains_view(ks, (#[trigger] ts[j]).created_at_date@)
}

/// Every key is the date of some task.
pub open spec fn keys_grounded(ks: Seq<String>, ts: Seq<Task>) -> bool {
    forall|g: int| 0 <= g < ks.len() ==> some_task_has_date(ts, (#[trigger] ks[g])@)
}

/// The keys of `a` and `b` read the same dates.
pub open spec fn same_dates(a: Seq<String>, b: Seq<String>) -> bool {
    forall|v: Seq<char>|
        #![trigger contains_view(a, v)]
        #![trigger contains_view(b, v)]
        contains_view(a, v) <==> contains_view(b, v)
}

/// The keys of `all` read exactly the dates read by `xs` and `ys`
/// together.
pub open spec fn dates_split(all: Seq<String>, xs: Seq<String>, ys: Seq<String>) -> bool {
    forall|v: Seq<char>|
        #![trigger contains_view(xs, v)]
        #![trigger contains_view(ys, v)]
        #![trigger contains_view(all, v)]
        contains_view(all, v) <==> (contains_view(xs, v) || contains_view(ys, v))
}

/// The tasks bearing one date, as a value `filter` can take.
pub open spec fn date_pred(key: Seq<char>) -> spec_fn(Task) -> bool {
    |t: Task| t.created_at_date@ == key
}

pub open spec fn keys_distinct(ks: Seq<String>) -> bool {
    forall|a: int, b: int| 0 <= a < b < ks.len() ==> ks[a]@ != ks[b]@
}

/// The distinct dates of the tasks, in first-seen order.
fn distinct_dates(tasks: &Vec<Task>) -> (keys: Vec<String>)
    ensures
        keys_distinct(keys@),
        keys_cover(keys@, tasks@),
        keys_grounded(keys@, tasks@),
{
    let mut keys: Vec<String> = Vec::new();
    let mut i: usize = 0;
    proof {
        assert(tasks@.take(0) =~= Seq::<Task>::empty());
    }
    while i < tasks.len()
        invariant
            i <= tasks@.len(),
            keys_distinct(keys@),
            keys_cover(keys@, tasks@.take(i as int)),
            keys_grounded(keys@, tasks@),
        decreases tasks@.len() - i,
    {
        let date = &tasks[i].created_at_date;
        let mut found = false;
        let mut g: usize = 0;
        while g < keys.len()
            invariant
                g <= keys@.len(),
                found ==> contains_view(keys@, date@),
                !found ==> forall|h: int| 0 <= h < g ==> (#[trigger] keys@[h])@ != date@,
            decreases keys@.len() - g,
        {
            if string_eq(&keys[g], date) {
                found = true;
                proof {
                    assert(keys@[g as int]@ == date@);
                }
            }
            g = g + 1;
        }
        let ghost keys_pre: Seq<String> = keys@;
        if !found {
            keys.push(date.clone());
        }
        proof {
            if !found {
                assert(keys@[keys_pre.len() as int]@ == date@);
                assert forall|g2: int|
                    0 <= g2 < keys@.len() implies some_task_has_date(
                    tasks@,
                    (#[trigger] keys@[g2])@,
                ) by {
                    if g2 < keys_pre.len() {
                        assert(keys@[g2] == keys_pre[g2]);
                        assert(some_task_has_date(tasks@, keys_pre[g2]@));
                    } else {
                        assert(tasks@[i as int].created_at_date@ == keys@[g2]@);
                    }
                }
            }
            assert(contains_view(keys@, tasks@[i as int].created_at_date@)) by {
                if found {
                    let g0 = choose|g0: int|
                        0 <= g0 < keys_pre.len() && (#[trigger] keys_pre[g0])@ == date@;
                    assert(keys@[g0]@ == date@);
                } else {
                    assert(keys@[keys_pre.len() as int]@ == date@);
                }
            }
            assert forall|j: int|
                0 <= j < i + 1 implies contains_view(
                keys@,
                (#[trigger] tasks@.take(i + 1)[j]).created_at_date@,
            ) by {
                assert(tasks@.take(i + 1)[j] == tasks@[j]);
                if j < i {
                    assert(tasks@.take(i as int)[j] == tasks@[j]);
                    assert(contains_view(keys_pre, tasks@.take(i as int)[j].created_at_date@));
                    let g0 = choose|g0: int|
                        0 <= g0 < keys_pre.len() && (#[trigger] keys_pre[g0])@
                            == tasks@[j].created_at_date@;
                    assert(keys@[g0]@ == tasks@[j].created_at_date@);
                }
            }
        }
        i = i + 1;
    }
    proof {
        assert(tasks@.take(tasks@.len() as int) =~= tasks@);
    }
    keys
}

/// The keys sorted newest first, keeping exactly the same dates.
fn sort_keys_descending(keys: Vec<String>) -> (sorted: Vec<String>)
    requires
        keys_distinct(keys@),
    ensures
        keys_distinct(sorted@),
        forall|a: int, b: int| 0 <= a < b < sorted@.len() ==> lex_lt(sorted@[b]@, sorted@[a]@),
        same_dates(keys@, sorted@),
{
    let ghost keys0: Seq<String> = keys@;
    let mut remaining = keys;
    let mut sorted: Vec<String> = Vec::new();
    while remaining.len() > 0
        invariant
            keys_distinct(remaining@),
            keys_distinct(sorted@),
            forall|a: int, b: int|
                0 <= a < remaining@.len() && 0 <= b < sorted@.len() ==> (#[trigger] remaining@[a])@
                    != (#[trigger] sorted@[b])@,
            forall|a: int, b: int| 0 <= a < b < sorted@.len() ==> lex_lt(sorted@[b]@, sorted@[a]@),
            forall|a: int, b: int|
                0 <= a < remaining@.len() && 0 <= b < sorted@.len() ==> lex_lt(
                    (#[trigger] remaining@[a])@,
                    (#[trigger] sorted@[b])@,
                ),
            dates_split(keys0, remaining@, sorted@),
        decreases remaining@.len(),
    {
        let mut best: usize = 0;
        let mut m: usize = 1;
        while m < remaining.len()
            invariant
                0 < remaining@.len(),
                best < m,
                m <= remaining@.len(),
                keys_distinct(remaining@),
                forall|h: int|
                    0 <= h < m && h != best ==> lex_lt(
                        (#[trigger] remaining@[h])@,
                        remaining@[best as int]@,
                    ),
            decreases remaining@.len() - m,
        {
            if string_lt(&remaining[best], &remaining[m]) {
                proof {
                    assert forall|h: int|
                        0 <= h < m + 1 && h != m implies lex_lt(
                        (#[trigger] remaining@[h])@,
                        remaining@[m as int]@,
                    ) by {
                        if h != best {
                            lemma_lex_trans(
                                remaining@[h]@,
                                remaining@[best as int]@,
                                remaining@[m as int]@,
                            );
                        }
                    }
                }
                best = m;
            } else {
                proof {
                    lemma_lex_total(remaining@[best as int]@, remaining@[m as int]@);
                    assert(remaining@[best as int]@ != remaining@[m as int]@);
                    assert(lex_lt(remaining@[m as int]@, remaining@[best as int]@));
                }
            }
            m = m + 1;
        }
        let ghost rem_pre: Seq<String> = remaining@;
        let ghost sorted_pre: Seq<String> = sorted@;
        let k = remaining.remove(best);
        sorted.push(k);
        proof {
            rem_pre.remove_ensures(best as int);
            let kv: Seq<char> = rem_pre[best as int]@;
            assert(sorted@[sorted@.len() - 1]@ == kv);
            assert forall|a: int, b: int|
                0 <= a < remaining@.len() && 0 <= b < sorted@.len() implies (
            #[trigger] remaining@[a])@ != (#[trigger] sorted@[b])@ by {
                if a < best {
                    assert(remaining@[a] == rem_pre[a]);
                } else {
                    assert(remaining@[a] == rem_pre[a + 1]);
                }
            }
            assert forall|a: int, b: int|
                0 <= a < remaining@.len() && 0 <= b < sorted@.len() implies lex_lt(
                (#[trigger] remaining@[a])@,
                (#[trigger] sorted@[b])@,
            ) by {
                if a < best {
                    assert(remaining@[a] == rem_pre[a]);
                } else {
                    assert(remaining@[a] == rem_pre[a + 1]);
                }
            }
            assert forall|a: int, b: int| 0 <= a < b < remaining@.len() implies (
            #[trigger] remaining@[a])@ != (#[trigger] remaining@[b])@ by {
                if a < best {
                    assert(remaining@[a] == rem_pre[a]);
                } else {
                    assert(remaining@[a] == rem_pre[a + 1]);
                }
                if b < best {
                    assert(remaining@[b] == rem_pre[b]);
                } else {
                    assert(remaining@[b] == rem_pre[b + 1]);
                }
            }
            assert forall|v: Seq<char>|
                #![trigger contains_view(remaining@, v)]
                #![trigger contains_view(sorted@, v)]
                #![trigger contains_view(keys0, v)]
                contains_view(keys0, v) <==> (contains_view(remaining@, v) || contains_view(
                    sorted@,
                    v,
                )) by {
                if contains_view(keys0, v) {
                    if contains_view(rem_pre, v) {
                        let a = choose|a: int|
                            0 <= a < rem_pre.len() && (#[trigger] rem_pre[a])@ == v;
                        if a < best {
                            assert(remaining@[a]@ == v);
                            assert(contains_view(remaining@, v));
                        } else if a > best {
                            assert(remaining@[a - 1]@ == v);
                            assert(contains_view(remaining@, v));
                        } else {
                            assert(sorted@[sorted@.len() - 1]@ == v);
                            assert(contains_view(sorted@, v));
                        }
                    } else {
                        assert(contains_view(sorted_pre, v));
                        let b = choose|b: int|
                            0 <= b < sorted_pre.len() && (#[trigger] sorted_pre[b])@ == v;
                        assert(sorted@[b]@ == v);
                        assert(contains_view(sorted@, v));
                    }
                }
                if contains_view(remaining@, v) {
                    let a = choose|a: int|
                        0 <= a < remaining@.len() && (#[trigger] remaining@[a])@ == v;
                    if a < best {
                        assert(rem_pre[a]@ == v);
                    } else {
                        assert(rem_pre[a + 1]@ == v);
                    }
                    assert(contains_view(rem_pre, v));
                    assert(contains_view(keys0, v));
                }
                if contains_view(sorted@, v) {
                    let b = choose|b: int|
                        0 <= b < sorted@.len() && (#[trigger] sorted@[b])@ == v;
                    if b < sorted_pre.len() {
                        assert(sorted_pre[b]@ == v);
                        assert(contains_view(sorted_pre, v));
                    } else {
                        assert(rem_pre[best as int]@ == v);
                        assert(contains_view(rem_pre, v));
                    }
                    assert(contains_view(keys0, v));
                }
            }
        }
    }
    proof {
        assert forall|v: Seq<char>|
            #![trigger contains_view(keys0, v)]
            #![trigger contains_view(sorted@, v)]
            contains_view(keys0, v) <==> contains_view(sorted@, v) by {
            assert(!contains_view(remaining@, v));
        }
    }
    sorted
}

/// The tasks bearing the given date, in stored order.
fn tasks_with_date(tasks: &Vec<Task>, key: &String) -> (r: Vec<Task>)
    ensures
        r@ == tasks@.filter(date_pred(key@)),
{
    let mut r: Vec<Task> = Vec::new();
    proof {
        reveal(Seq::filter);
        assert(tasks@.take(0).filter(date_pred(key@)) =~= Seq::<Task>::empty());
    }
    let mut i: usize = 0;
    while i < tasks.len()
        invariant
            i <= tasks@.len(),
            r@ == tasks@.take(i as int).filter(date_pred(key@)),
        decreases tasks@.len() - i,
    {
        let keep = string_eq(&tasks[i].created_at_date, key);
        proof {
            assert(keep == date_pred(key@)(tasks@[i as int]));
            assert(tasks@.take(i + 1) =~= tasks@.take(i as int).push(tasks@[i as int]));
            lemma_filter_push(tasks@.take(i as int), date_pred(key@), tasks@[i as int]);
        }
        if keep {
            r.push(tasks[i].clone());
        }
        i = i + 1;
    }
    proof {
        assert(tasks@.take(tasks@.len() as int) =~= tasks@);
    }
    r
}

/// Whether one of the groups is keyed by the date `v`.
pub open spec fn group_key_for(r: Seq<(String, Vec<Task>)>, v: Seq<char>) -> bool {
    exists|g: int| 0 <= g < r.len() && (#[trigger] r[g]).0@ == v
}

/// The history view of the tasks: one group per calendar date, newest
/// date first, each group holding exactly the tasks that bear its date,
/// in stored order.  Every task lands in exactly one group and no group
/// is empty.
pub fn history_groups(tasks: &Vec<Task>) -> (r: Vec<(String, Vec<Task>)>)
    ensures
        forall|a: int, b: int| 0 <= a < b < r@.len() ==> lex_lt(r@[b].0@, r@[a].0@),
        forall|g: int| 0 <= g < r@.len() ==> (#[trigger] r@[g].1)@ == tasks@.filter(
            date_pred(r@[g].0@),
        ),
        forall|g: int| 0 <= g < r@.len() ==> (#[trigger] r@[g].1)@.len() > 0,
        forall|j: int|
            0 <= j < tasks@.len() ==> group_key_for(
                r@,
                (#[trigger] tasks@[j]).created_at_date@,
            ),
{
    broadcast use vstd::seq_lib::group_filter_ensures;

    let keys = distinct_dates(tasks);
    let ghost keys0: Seq<String> = keys@;
    let sorted = sort_keys_descending(keys);
    proof {
        assert forall|h: int|
            0 <= h < sorted@.len() implies some_task_has_date(
            tasks@,
            (#[trigger] sorted@[h])@,
        ) by {
            assert(contains_view(sorted@, sorted@[h]@));
            assert(contains_view(keys0, sorted@[h]@));
            let g0 = choose|g0: int| 0 <= g0 < keys0.len() && (#[trigger] keys0[g0])@ == sorted@[h]@;
            assert(some_task_has_date(tasks@, keys0[g0]@));
        }
    }
    let mut r: Vec<(String, Vec<Task>)> = Vec::new();
    let mut g: usize = 0;
    while g < sorted.len()
        invariant
            g <= sorted@.len(),
            r@.len() == g,
            forall|a: int| 0 <= a < g ==> (#[trigger] r@[a]).0 == sorted@[a],
            forall|a: int| 0 <= a < g ==> (#[trigger] r@[a]).1@ == tasks@.filter(
                date_pred(sorted@[a]@),
            ),
            forall|a: int| 0 <= a < g ==> (#[trigger] r@[a]).1@.len() > 0,
            keys_distinct(sorted@),
            forall|a: int, b: int| 0 <= a < b < sorted@.len() ==> lex_lt(sorted@[b]@, sorted@[a]@),
            keys_cover(sorted@, tasks@),
            forall|h: int|
                0 <= h < sorted@.len() ==> some_task_has_date(tasks@, (#[trigger] sorted@[h])@),
        decreases sorted@.len() - g,
    {
        let key = sorted[g].clone();
        let group = tasks_with_date(tasks, &key);
        proof {
            assert(some_task_has_date(tasks@, sorted@[g as int]@));
            let j = choose|j: int|
                0 <= j < tasks@.len() && (#[trigger] tasks@[j]).created_at_date@
                    == sorted@[g as int]@;
            assert(date_pred(key@)(tasks@[j]));
            assert(tasks@.filter(date_pred(key@)).contains(tasks@[j]));
        }
        r.push((key, group));
        g = g + 1;
    }
    proof {
        assert forall|j: int|
            0 <= j < tasks@.len() implies group_key_for(
            r@,
            (#[trigger] tasks@[j]).created_at_date@,
        ) by {
            assert(contains_view(sorted@, tasks@[j].created_at_date@));
            let h = choose|h: int|
                0 <= h < sorted@.len() && (#[trigger] sorted@[h])@ == tasks@[j].created_at_date@;
            assert(r@[h].0@ == tasks@[j].created_at_date@);
        }
    }
    r
}

/// The current day as the store and the daily filter name it.
pub fn today_string() -> (r: String)
    ensures
        exists|now: u64| now <= MAX_TIMESTAMP && r@ == #[trigger] utc_date_of(now),
{
    let now = now_secs();
    let r = crate::task::format_utc_date(now);
    proof {
        assert(now <= MAX_TIMESTAMP && r@ == utc_date_of(now));
    }
    r
}

} // verus!
