//! Planning and applying the renames that number every tab by its position
//! inside its workspace.
use vstd::prelude::*;

use crate::formatter::parser::render_tokens;
use crate::formatter::token::SpecToken;
use crate::formatter::{
    Formatter, RenderContext, strip_numeric_prefix, without_numeric_prefix,
};
use crate::herdr::client::{HerdrApi, HerdrCall, HerdrError, tab_listing};
use crate::herdr::models::{SpecTab, Tab, tabs_view};
use crate::text::str_equal;

verus! {

/// One tab to rename, from its current title to the numbered one.
#[derive(Debug, Clone, PartialEq, Eq)]
pub struct RenameOperation {
    pub tab_id: String,
    pub from: String,
    pub to: String,
}

/// The mathematical value of a [`RenameOperation`].
pub struct SpecRename {
    pub tab_id: Seq<char>,
    pub from: Seq<char>,
    pub to: Seq<char>,
}

impl View for RenameOperation {
    type V = SpecRename;

    open spec fn view(&self) -> SpecRename {
        SpecRename { tab_id: self.tab_id@, from: self.from@, to: self.to@ }
    }
}

/// The renames of a sequence, by their values.
pub open spec fn renames_view(ops: Seq<RenameOperation>) -> Seq<SpecRename> {
    ops.map_values(|op: RenameOperation| op@)
}

/// Whether `a` comes before `b` in lexicographic order of code points, which
/// is the order of `String`'s `Ord`.
pub open spec fn chars_before(a: Seq<char>, b: Seq<char>) -> bool
    decreases a.len(),
{
    if a.len() == 0 {
        b.len() > 0
    } else if b.len() == 0 {
        false
    } else if a[0] != b[0] {
        a[0] < b[0]
    } else {
        chars_before(a.drop_first(), b.drop_first())
    }
}

/// Whether tab `a` sorts before tab `b`: by workspace id, then by number.
pub open spec fn tab_before(a: SpecTab, b: SpecTab) -> bool {
    ||| chars_before(a.workspace_id, b.workspace_id)
    ||| (a.workspace_id == b.workspace_id && a.number < b.number)
}

/// `tab` inserted into `sorted` after every tab that it does not sort before.
pub open spec fn insert_sorted(sorted: Seq<SpecTab>, tab: SpecTab) -> Seq<SpecTab>
    decreases sorted.len(),
{
    if sorted.len() == 0 {
        seq![tab]
    } else if tab_before(tab, sorted.last()) {
        insert_sorted(sorted.drop_last(), tab).push(sorted.last())
    } else {
        sorted.push(tab)
    }
}

/// The tabs in stable order of workspace id and number.
pub open spec fn sorted_tabs(tabs: Seq<SpecTab>) -> Seq<SpecTab>
    decreases tabs.len(),
{
    if tabs.len() == 0 {
        Seq::empty()
    } else {
        insert_sorted(sorted_tabs(tabs.drop_last()), tabs.last())
    }
}

/// The 1-based index of tab `k` of `sorted` inside the run of tabs of its
/// workspace.
pub open spec fn run_index(sorted: Seq<SpecTab>, k: int) -> nat
    decreases k,
{
    if k <= 0 {
        1
    } else if sorted[k - 1].workspace_id == sorted[k].workspace_id {
        run_index(sorted, k - 1) + 1
    } else {
        1
    }
}

/// The title a tab should carry at `index`: the format rendered with the
/// tab's title without its numeric prefix.
///
/// Only a leading `N. ` counts as a numeric prefix. Under a format that
/// numbers otherwise, such as `[{index}] {title}`, a numbered title is not
/// recognised as numbered, so each refresh puts another number in front of
/// it; [`lemma_plan_is_settled_after_renames`] holds only for formats whose
/// titles render back to themselves ([`renders_stably`]).
pub open spec fn expected_title(format: Seq<SpecToken>, title: Seq<char>, index: nat) -> Seq<
    char,
> {
    render_tokens(format, index, without_numeric_prefix(title))
}

/// The rename of tab `k` of `sorted`, if its title is not the expected one.
pub open spec fn planned_rename(format: Seq<SpecToken>, sorted: Seq<SpecTab>, k: int) -> Seq<
    SpecRename,
> {
    let tab = sorted[k];
    let expected = expected_title(format, tab.title, run_index(sorted, k));
    if tab.title == expected {
        Seq::empty()
    } else {
        seq![SpecRename { tab_id: tab.id, from: tab.title, to: expected }]
    }
}

/// The renames of the first `n` tabs of `sorted`, in order.
pub open spec fn planned_renames(format: Seq<SpecToken>, sorted: Seq<SpecTab>, n: int) -> Seq<
    SpecRename,
>
    decreases n,
{
    if n <= 0 {
        Seq::empty()
    } else {
        planned_renames(format, sorted, n - 1) + planned_rename(format, sorted, n - 1)
    }
}

/// The renames that number `tabs`: in order of workspace and number, one for
/// each tab whose title differs from the expected one.
pub open spec fn rename_plan(format: Seq<SpecToken>, tabs: Seq<SpecTab>) -> Seq<SpecRename> {
    let sorted = sorted_tabs(tabs);
    planned_renames(format, sorted, sorted.len() as int)
}

/// Whether no tab of `s` sorts before a tab that precedes it.
pub open spec fn tabs_in_order(s: Seq<SpecTab>) -> bool {
    forall|i: int, j: int| 0 <= i < j < s.len() ==> !tab_before(#[trigger] s[j], #[trigger] s[i])
}

proof fn lemma_chars_before_irreflexive(a: Seq<char>)
    ensures
        !chars_before(a, a),
    decreases a.len(),
{
    if a.len() > 0 {
        lemma_chars_before_irreflexive(a.drop_first());
    }
}

proof fn lemma_chars_before_transitive(a: Seq<char>, b: Seq<char>, c: Seq<char>)
    requires
        chars_before(a, b),
        chars_before(b, c),
    ensures
        chars_before(a, c),
    decreases a.len(),
{
    if a.len() > 0 && a[0] == b[0] && b[0] == c[0] {
        lemma_chars_before_transitive(a.drop_first(), b.drop_first(), c.drop_first());
    }
}

proof fn lemma_chars_before_total(a: Seq<char>, b: Seq<char>)
    ensures
        chars_before(a, b) || chars_before(b, a) || a == b,
    decreases a.len(),
{
    if a.len() == 0 && b.len() == 0 {
        assert(a =~= b);
    } else if a.len() > 0 && b.len() > 0 && a[0] == b[0] {
        lemma_chars_before_total(a.drop_first(), b.drop_first());
        if a.drop_first() == b.drop_first() {
            assert(a.drop_first().len() == a.len() - 1);
            assert(b.drop_first().len() == b.len() - 1);
            assert(a.len() == b.len());
            assert forall|j: int| 0 <= j < a.len() implies a[j] == b[j] by {
                if j > 0 {
                    assert(a[j] == a.drop_first()[j - 1]);
                    assert(b[j] == b.drop_first()[j - 1]);
                }
            }
            assert(a =~= b);
        }
    }
}

proof fn lemma_tab_before_irreflexive(x: SpecTab)
    ensures
        !tab_before(x, x),
{
    lemma_chars_before_irreflexive(x.workspace_id);
}

proof fn lemma_tab_before_transitive(x: SpecTab, y: SpecTab, z: SpecTab)
    requires
        tab_before(x, y),
        tab_before(y, z),
    ensures
        tab_before(x, z),
{
    if chars_before(x.workspace_id, y.workspace_id) && chars_before(
        y.workspace_id,
        z.workspace_id,
    ) {
        lemma_chars_before_transitive(x.workspace_id, y.workspace_id, z.workspace_id);
    }
}

/// If `x` sorts before `z`, then any `y` sorts after `x` or before `z`.
proof fn lemma_tab_before_split(x: SpecTab, y: SpecTab, z: SpecTab)
    requires
        tab_before(x, z),
    ensures
        tab_before(x, y) || tab_before(y, z),
{
    lemma_chars_before_total(x.workspace_id, y.workspace_id);
    if tab_before(y, x) {
        lemma_tab_before_transitive(y, x, z);
    } else if !tab_before(x, y) {
        if chars_before(x.workspace_id, y.workspace_id) {
        } else if chars_before(y.workspace_id, x.workspace_id) {
        } else {
            assert(x.workspace_id == y.workspace_id);
            assert(x.number == y.number);
        }
    }
}

proof fn lemma_insert_sorted(s: Seq<SpecTab>, x: SpecTab)
    requires
        tabs_in_order(s),
    ensures
        tabs_in_order(insert_sorted(s, x)),
        insert_sorted(s, x).to_multiset() == s.to_multiset().insert(x),
    decreases s.len(),
{
    broadcast use vstd::seq_lib::group_to_multiset_ensures;

    if s.len() == 0 {
        assert(seq![x] =~= s.push(x));
    } else {
        let last = s.last();
        let init = s.drop_last();
        assert(init.push(last) =~= s);
        assert(tabs_in_order(init)) by {
            assert forall|i: int, j: int| 0 <= i < j < init.len() implies !tab_before(
                #[trigger] init[j],
                #[trigger] init[i],
            ) by {
                assert(init[i] == s[i]);
                assert(init[j] == s[j]);
            }
        }
        if tab_before(x, last) {
            lemma_insert_sorted(init, x);
            let inner = insert_sorted(init, x);
            let r = inner.push(last);
            assert forall|i: int, j: int| 0 <= i < j < r.len() implies !tab_before(
                #[trigger] r[j],
                #[trigger] r[i],
            ) by {
                if j < inner.len() {
                    assert(r[i] == inner[i]);
                    assert(r[j] == inner[j]);
                } else {
                    assert(r[i] == inner[i]);
                    assert(inner.to_multiset().count(inner[i]) > 0);
                    if inner[i] == x {
                        if tab_before(last, x) {
                            lemma_tab_before_transitive(x, last, x);
                            lemma_tab_before_irreflexive(x);
                        }
                    } else {
                        assert(init.to_multiset().count(inner[i]) > 0);
                        assert(init.contains(inner[i]));
                        let m = choose|m: int| 0 <= m < init.len() && init[m] == inner[i];
                        assert(s[m] == init[m]);
                        assert(s[s.len() - 1] == last);
                    }
                }
            }
            assert(r.to_multiset() =~= s.to_multiset().insert(x));
        } else {
            let r = s.push(x);
            assert forall|i: int, j: int| 0 <= i < j < r.len() implies !tab_before(
                #[trigger] r[j],
                #[trigger] r[i],
            ) by {
                if j < s.len() {
                    assert(r[i] == s[i]);
                    assert(r[j] == s[j]);
                } else {
                    assert(r[j] == x);
                    assert(r[i] == s[i]);
                    if tab_before(x, s[i]) {
                        lemma_tab_before_split(x, last, s[i]);
                        if i < s.len() - 1 {
                            assert(!tab_before(s[s.len() - 1], s[i]));
                        } else {
                            lemma_tab_before_irreflexive(last);
                        }
                    }
                }
            }
        }
    }
}

/// Sorting keeps the tabs, and puts them in order of workspace id and
/// number.
pub proof fn lemma_sorted_tabs_in_order(tabs: Seq<SpecTab>)
    ensures
        tabs_in_order(sorted_tabs(tabs)),
        sorted_tabs(tabs).to_multiset() == tabs.to_multiset(),
    decreases tabs.len(),
{
    broadcast use vstd::seq_lib::group_to_multiset_ensures;

    if tabs.len() > 0 {
        lemma_sorted_tabs_in_order(tabs.drop_last());
        lemma_insert_sorted(sorted_tabs(tabs.drop_last()), tabs.last());
        assert(tabs.drop_last().push(tabs.last()) =~= tabs);
    } else {
        assert(tabs.to_multiset() =~= Seq::<SpecTab>::empty().to_multiset());
    }
}

/// How many of the first `k` tabs of `s` belong to workspace `ws`.
pub open spec fn same_workspace_before(s: Seq<SpecTab>, k: int, ws: Seq<char>) -> nat
    decreases k,
{
    if k <= 0 {
        0
    } else {
        same_workspace_before(s, k - 1, ws) + if s[k - 1].workspace_id == ws {
            1nat
        } else {
            0nat
        }
    }
}

proof fn lemma_none_before(s: Seq<SpecTab>, k: int, ws: Seq<char>)
    requires
        0 <= k <= s.len(),
        forall|j: int| 0 <= j < k ==> s[j].workspace_id != ws,
    ensures
        same_workspace_before(s, k, ws) == 0,
    decreases k,
{
    if k > 0 {
        lemma_none_before(s, k - 1, ws);
    }
}

proof fn lemma_run_index_counts(s: Seq<SpecTab>, k: int)
    requires
        tabs_in_order(s),
        0 <= k < s.len(),
    ensures
        run_index(s, k) == 1 + same_workspace_before(s, k, s[k].workspace_id),
    decreases k,
{
    if k > 0 {
        let ws = s[k].workspace_id;
        if s[k - 1].workspace_id == ws {
            lemma_run_index_counts(s, k - 1);
        } else {
            assert forall|j: int| 0 <= j < k implies s[j].workspace_id != ws by {
                if j < k - 1 && s[j].workspace_id == ws {
                    assert(!tab_before(s[k - 1], s[j]));
                    assert(!tab_before(s[k], s[k - 1]));
                    lemma_chars_before_total(s[k - 1].workspace_id, ws);
                }
            }
            lemma_none_before(s, k, ws);
        }
    }
}

/// The index a tab is numbered with is its 1-based position among the tabs
/// of its workspace, in order of number.
pub proof fn lemma_index_is_position_in_workspace(tabs: Seq<SpecTab>, k: int)
    requires
        0 <= k < tabs.len(),
    ensures
        sorted_tabs(tabs).len() == tabs.len(),
        run_index(sorted_tabs(tabs), k) == 1 + same_workspace_before(
            sorted_tabs(tabs),
            k,
            sorted_tabs(tabs)[k].workspace_id,
        ),
{
    broadcast use vstd::seq_lib::group_to_multiset_ensures;

    lemma_sorted_tabs_in_order(tabs);
    assert(sorted_tabs(tabs).to_multiset().len() == tabs.to_multiset().len());
    lemma_run_index_counts(sorted_tabs(tabs), k);
}

proof fn lemma_same_workspace_before_grows(s: Seq<SpecTab>, i: int, j: int, ws: Seq<char>)
    requires
        0 <= i < j <= s.len(),
        s[i].workspace_id == ws,
    ensures
        same_workspace_before(s, j, ws) >= same_workspace_before(s, i, ws) + 1,
    decreases j - i,
{
    if j > i + 1 {
        lemma_same_workspace_before_grows(s, i, j - 1, ws);
    }
}

/// Inside a workspace, tabs are ordered and numbered by the integer order of
/// their numbers: of two tabs of the same workspace, the one placed first has
/// a number no greater and a smaller index, and a tab with the smaller number
/// (2 before 10) is placed first and gets the smaller index.
pub proof fn lemma_workspace_order_follows_numbers(tabs: Seq<SpecTab>, i: int, j: int)
    requires
        0 <= i < tabs.len(),
        0 <= j < tabs.len(),
        sorted_tabs(tabs)[i].workspace_id == sorted_tabs(tabs)[j].workspace_id,
    ensures
        sorted_tabs(tabs).len() == tabs.len(),
        i < j ==> sorted_tabs(tabs)[i].number <= sorted_tabs(tabs)[j].number,
        i < j ==> run_index(sorted_tabs(tabs), i) < run_index(sorted_tabs(tabs), j),
        sorted_tabs(tabs)[i].number < sorted_tabs(tabs)[j].number ==> i < j,
        sorted_tabs(tabs)[i].number < sorted_tabs(tabs)[j].number ==> run_index(
            sorted_tabs(tabs),
            i,
        ) < run_index(sorted_tabs(tabs), j),
{
    broadcast use vstd::seq_lib::group_to_multiset_ensures;

    let s = sorted_tabs(tabs);
    lemma_sorted_tabs_in_order(tabs);
    assert(s.to_multiset().len() == tabs.to_multiset().len());
    let ws = s[i].workspace_id;
    lemma_chars_before_irreflexive(ws);
    lemma_run_index_counts(s, i);
    lemma_run_index_counts(s, j);
    if i < j {
        assert(!tab_before(s[j], s[i]));
        lemma_same_workspace_before_grows(s, i, j, ws);
    } else if j < i {
        assert(!tab_before(s[i], s[j]));
        lemma_same_workspace_before_grows(s, j, i, ws);
    }
}

proof fn lemma_planned_renames_change(format: Seq<SpecToken>, s: Seq<SpecTab>, n: int)
    requires
        0 <= n <= s.len(),
    ensures
        forall|i: int|
            0 <= i < planned_renames(format, s, n).len() ==> {
                let op = #[trigger] planned_renames(format, s, n)[i];
                &&& op.from != op.to
                &&& exists|k: int|
                    0 <= k < n && op.tab_id == s[k].id && op.from == s[k].title && op.to
                        == expected_title(format, s[k].title, run_index(s, k))
            },
    decreases n,
{
    if n > 0 {
        lemma_planned_renames_change(format, s, n - 1);
        let before = planned_renames(format, s, n - 1);
        let all = planned_renames(format, s, n);
        assert forall|i: int| 0 <= i < all.len() implies {
            let op = #[trigger] all[i];
            &&& op.from != op.to
            &&& exists|k: int|
                0 <= k < n && op.tab_id == s[k].id && op.from == s[k].title && op.to
                    == expected_title(format, s[k].title, run_index(s, k))
        } by {
            if i < before.len() {
                assert(all[i] == before[i]);
            } else {
                assert(all[i] == planned_rename(format, s, n - 1)[0]);
            }
        }
    }
}

/// Whether `op` changes the title of one of `tabs`, from its current title.
pub open spec fn changes_listed_tab(op: SpecRename, tabs: Seq<SpecTab>) -> bool {
    &&& op.from != op.to
    &&& exists|tab: SpecTab| tabs.contains(tab) && op.tab_id == tab.id && op.from == tab.title
}

/// Every planned rename changes the title of a listed tab, from its current
/// title to another.
pub proof fn lemma_plan_renames_listed_tabs(format: Seq<SpecToken>, tabs: Seq<SpecTab>)
    ensures
        forall|i: int|
            0 <= i < rename_plan(format, tabs).len() ==> changes_listed_tab(
                #[trigger] rename_plan(format, tabs)[i],
                tabs,
            ),
{
    broadcast use vstd::seq_lib::group_to_multiset_ensures;

    let s = sorted_tabs(tabs);
    lemma_sorted_tabs_in_order(tabs);
    lemma_planned_renames_change(format, s, s.len() as int);
    assert forall|i: int| 0 <= i < rename_plan(format, tabs).len() implies changes_listed_tab(
        rename_plan(format, tabs)[i],
        tabs,
    ) by {
        let op = rename_plan(format, tabs)[i];
        assert(op == planned_renames(format, s, s.len() as int)[i]);
        let k = choose|k: int|
            0 <= k < s.len() && op.tab_id == s[k].id && op.from == s[k].title && op.to
                == expected_title(format, s[k].title, run_index(s, k));
        assert(s.contains(s[k]));
        assert(s.to_multiset().count(s[k]) > 0);
        assert(tabs.contains(s[k]));
        let tab = s[k];
        assert(tabs.contains(tab) && op.tab_id == tab.id && op.from == tab.title);
    }
}

/// Tab `k` of `s` after its planned rename.
pub open spec fn renamed_tab(format: Seq<SpecToken>, s: Seq<SpecTab>, k: int) -> SpecTab {
    SpecTab {
        id: s[k].id,
        title: expected_title(format, s[k].title, run_index(s, k)),
        workspace_id: s[k].workspace_id,
        number: s[k].number,
        focused: s[k].focused,
    }
}

/// The tabs of `s` once every planned rename is done.
pub open spec fn renamed_tabs(format: Seq<SpecToken>, s: Seq<SpecTab>) -> Seq<SpecTab> {
    Seq::new(s.len(), |k: int| renamed_tab(format, s, k))
}

/// Whether each expected title of `s`, once its numeric prefix is removed,
/// renders to that same expected title again.
pub open spec fn renders_stably(format: Seq<SpecToken>, s: Seq<SpecTab>) -> bool {
    forall|k: int|
        0 <= k < s.len() ==> {
            let expected = #[trigger] expected_title(format, s[k].title, run_index(s, k));
            expected_title(format, expected, run_index(s, k)) == expected
        }
}

proof fn lemma_sorted_tabs_of_ordered(s: Seq<SpecTab>)
    requires
        tabs_in_order(s),
    ensures
        sorted_tabs(s) == s,
    decreases s.len(),
{
    if s.len() > 0 {
        let init = s.drop_last();
        assert(tabs_in_order(init)) by {
            assert forall|i: int, j: int| 0 <= i < j < init.len() implies !tab_before(
                #[trigger] init[j],
                #[trigger] init[i],
            ) by {
                assert(init[i] == s[i]);
                assert(init[j] == s[j]);
            }
        }
        lemma_sorted_tabs_of_ordered(init);
        if init.len() > 0 {
            assert(init.last() == s[s.len() - 2]);
            assert(!tab_before(s[s.len() - 1], s[s.len() - 2]));
        }
        assert(init.push(s.last()) =~= s);
        if init.len() == 0 {
            assert(seq![s.last()] =~= s);
        }
    }
}

proof fn lemma_run_index_same(format: Seq<SpecToken>, s: Seq<SpecTab>, k: int)
    requires
        0 <= k < s.len(),
    ensures
        run_index(renamed_tabs(format, s), k) == run_index(s, k),
    decreases k,
{
    if k > 0 {
        lemma_run_index_same(format, s, k - 1);
    }
}

proof fn lemma_nothing_left(format: Seq<SpecToken>, s: Seq<SpecTab>, n: int)
    requires
        0 <= n <= s.len(),
        renders_stably(format, s),
    ensures
        planned_renames(format, renamed_tabs(format, s), n) == Seq::<SpecRename>::empty(),
    decreases n,
{
    if n > 0 {
        lemma_nothing_left(format, s, n - 1);
        let r = renamed_tabs(format, s);
        lemma_run_index_same(format, s, n - 1);
        let expected = expected_title(format, s[n - 1].title, run_index(s, n - 1));
        assert(r[n - 1].title == expected);
        assert(expected_title(format, expected, run_index(s, n - 1)) == expected);
        assert(planned_rename(format, r, n - 1) =~= Seq::<SpecRename>::empty());
        assert(Seq::<SpecRename>::empty() + Seq::<SpecRename>::empty() =~= Seq::<
            SpecRename,
        >::empty());
    }
}

/// Once every planned rename is done, planning again renames nothing,
/// provided each expected title, with its numeric prefix removed, renders
/// to itself again.
pub proof fn lemma_plan_is_settled_after_renames(format: Seq<SpecToken>, tabs: Seq<SpecTab>)
    requires
        renders_stably(format, sorted_tabs(tabs)),
    ensures
        rename_plan(format, renamed_tabs(format, sorted_tabs(tabs))) == Seq::<SpecRename>::empty(),
{
    let s = sorted_tabs(tabs);
    lemma_sorted_tabs_in_order(tabs);
    let r = renamed_tabs(format, s);
    assert(tabs_in_order(r)) by {
        assert forall|i: int, j: int| 0 <= i < j < r.len() implies !tab_before(
            #[trigger] r[j],
            #[trigger] r[i],
        ) by {
            assert(!tab_before(s[j], s[i]));
        }
    }
    lemma_sorted_tabs_of_ordered(r);
    lemma_nothing_left(format, s, s.len() as int);
}

fn str_before(a: &str, b: &str) -> (r: bool)
    ensures
        r == chars_before(a@, b@),
{
    let na = a.unicode_len();
    let nb = b.unicode_len();
    let mut i: usize = 0;
    assert(a@.skip(0) =~= a@);
    assert(b@.skip(0) =~= b@);
    while i < na && i < nb
        invariant
            na == a@.len(),
            nb == b@.len(),
            0 <= i <= na,
            i <= nb,
            chars_before(a@, b@) == chars_before(a@.skip(i as int), b@.skip(i as int)),
        decreases na - i,
    {
        let ca = a.get_char(i);
        let cb = b.get_char(i);
        assert(a@.skip(i as int)[0] == ca);
        assert(b@.skip(i as int)[0] == cb);
        if ca != cb {
            return ca < cb;
        }
        assert(a@.skip(i as int).drop_first() =~= a@.skip(i + 1));
        assert(b@.skip(i as int).drop_first() =~= b@.skip(i + 1));
        i = i + 1;
    }
    i == na && i < nb
}

fn tab_sorts_before(a: &Tab, b: &Tab) -> (r: bool)
    ensures
        r == tab_before(a@, b@),
{
    if str_before(a.workspace_id.as_str(), b.workspace_id.as_str()) {
        true
    } else if str_equal(a.workspace_id.as_str(), b.workspace_id.as_str()) {
        a.number < b.number
    } else {
        false
    }
}

fn insert_tab(sorted: &mut Vec<Tab>, tab: Tab)
    ensures
        tabs_view(final(sorted)@) == insert_sorted(tabs_view(old(sorted)@), tab@),
{
    let ghost s = tabs_view(sorted@);
    let mut p = sorted.len();
    assert(s.take(p as int) =~= s);
    assert(s.take(p as int) + s.skip(p as int) =~= s);
    assert(insert_sorted(s, tab@) =~= insert_sorted(s.take(p as int), tab@) + s.skip(p as int));
    while p > 0 && tab_sorts_before(&tab, &sorted[p - 1])
        invariant
            s == tabs_view(sorted@),
            0 <= p <= sorted@.len(),
            insert_sorted(s, tab@) == insert_sorted(s.take(p as int), tab@) + s.skip(p as int),
        decreases p,
    {
        let ghost prefix = s.take(p as int);
        assert(prefix.drop_last() =~= s.take(p - 1));
        assert(prefix.last() == s[p - 1]);
        assert(s.skip(p - 1) =~= seq![s[p - 1]] + s.skip(p as int));
        assert(insert_sorted(prefix, tab@) == insert_sorted(s.take(p - 1), tab@).push(s[p - 1]));
        assert(insert_sorted(s.take(p - 1), tab@).push(s[p - 1]) + s.skip(p as int)
            =~= insert_sorted(s.take(p - 1), tab@) + s.skip(p - 1));
        p = p - 1;
    }
    proof {
        if p > 0 {
            assert(s.take(p as int).last() == s[p - 1]);
        }
    }
    let ghost x = tab@;
    sorted.insert(p, tab);
    assert(tabs_view(sorted@) =~= s.take(p as int).push(x) + s.skip(p as int));
}

/// The tabs in stable order of workspace id and number.
pub fn sort_tabs(tabs: Vec<Tab>) -> (r: Vec<Tab>)
    ensures
        tabs_view(r@) == sorted_tabs(tabs_view(tabs@)),
{
    let ghost all = tabs_view(tabs@);
    let mut rest = tabs;
    let mut sorted: Vec<Tab> = Vec::new();
    let ghost mut k: int = 0;
    assert(all.skip(0) =~= all);
    assert(all.take(0) =~= Seq::<SpecTab>::empty());
    assert(tabs_view(sorted@) =~= Seq::<SpecTab>::empty());
    while rest.len() > 0
        invariant
            0 <= k <= all.len(),
            tabs_view(rest@) == all.skip(k),
            tabs_view(sorted@) == sorted_tabs(all.take(k)),
        decreases rest.len(),
    {
        let ghost before = tabs_view(rest@);
        let tab = rest.remove(0);
        assert(tabs_view(rest@) =~= before.drop_first());
        assert(before[0] == tab@);
        assert(all.take(k + 1).drop_last() =~= all.take(k));
        assert(all.take(k + 1).last() == all[k]);
        assert(all.skip(k)[0] == all[k]);
        insert_tab(&mut sorted, tab);
        assert(all.skip(k).drop_first() =~= all.skip(k + 1));
        proof {
            k = k + 1;
        }
    }
    assert(all.take(k) =~= all);
    sorted
}

/// The renames that number `tabs` under `formatter`.
pub fn plan_renames_for_tabs(tabs: Vec<Tab>, formatter: &Formatter) -> (r: Vec<RenameOperation>)
    ensures
        renames_view(r@) == rename_plan(formatter@, tabs_view(tabs@)),
{
    let sorted = sort_tabs(tabs);
    let ghost s = tabs_view(sorted@);
    let n = sorted.len();
    let mut operations: Vec<RenameOperation> = Vec::new();
    let mut workspace_index: usize = 0;
    let mut k: usize = 0;
    assert(renames_view(operations@) =~= Seq::<SpecRename>::empty());
    while k < n
        invariant
            n == sorted@.len(),
            s == tabs_view(sorted@),
            s == sorted_tabs(tabs_view(tabs@)),
            0 <= k <= n,
            k > 0 ==> workspace_index == run_index(s, k - 1),
            workspace_index <= k,
            renames_view(operations@) == planned_renames(formatter@, s, k as int),
        decreases n - k,
    {
        let tab = &sorted[k];
        assert(s[k as int] == tab@);
        if k > 0 && str_equal(sorted[k - 1].workspace_id.as_str(), tab.workspace_id.as_str()) {
            assert(s[k - 1] == sorted@[k - 1]@);
            workspace_index = workspace_index + 1;
        } else {
            proof {
                if k > 0 {
                    assert(s[k - 1] == sorted@[k - 1]@);
                }
            }
            workspace_index = 1;
        }
        assert(workspace_index == run_index(s, k as int));
        let stripped = strip_numeric_prefix(tab.title.as_str());
        let expected = formatter.render(&RenderContext { index: workspace_index, title: stripped });
        let ghost before = renames_view(operations@);
        if !str_equal(tab.title.as_str(), expected.as_str()) {
            let op = RenameOperation {
                tab_id: tab.id.clone(),
                from: tab.title.clone(),
                to: expected,
            };
            operations.push(op);
            assert(renames_view(operations@) =~= before + planned_rename(
                formatter@,
                s,
                k as int,
            ));
        } else {
            assert(before + planned_rename(formatter@, s, k as int) =~= before);
        }
        k = k + 1;
    }
    operations
}

/// What planning gives for a tab listing: the renames of the listed tabs,
/// or the listing's error.
pub open spec fn planned_from(
    format: Seq<SpecToken>,
    listing: Result<Seq<SpecTab>, HerdrError>,
    r: Result<Vec<RenameOperation>, HerdrError>,
) -> bool {
    match listing {
        Ok(tabs) => r matches Ok(ops) && renames_view(ops@) == rename_plan(format, tabs),
        Err(error) => r == Err::<Vec<RenameOperation>, HerdrError>(error),
    }
}

/// Lists the tabs through `client`, once and with no other call, and plans
/// their renames; a listing error is returned as it came.
pub fn plan_renames<C: HerdrApi>(client: &mut C, formatter: &Formatter) -> (r: Result<
    Vec<RenameOperation>,
    HerdrError,
>)
    ensures
        final(client).calls().len() == old(client).calls().len() + 1,
        final(client).calls().drop_last() == old(client).calls(),
        final(client).calls().last() matches HerdrCall::ListTabs(listing) && planned_from(
            formatter@,
            listing,
            r,
        ),
{
    let listing = client.list_tabs();
    assert(client.calls().drop_last() =~= old(client).calls());
    plan_from_listing(listing, formatter)
}

/// The plan for what listing the tabs gave: the renames of the listed tabs,
/// or the listing's error.
pub fn plan_from_listing(listing: Result<Vec<Tab>, HerdrError>, formatter: &Formatter) -> (r:
    Result<Vec<RenameOperation>, HerdrError>)
    ensures
        planned_from(formatter@, tab_listing(listing), r),
{
    match listing {
        Ok(tabs) => Ok(plan_renames_for_tabs(tabs, formatter)),
        Err(error) => Err(error),
    }
}

/// The tab id and the new title that a rename asks Herdr for.
pub fn rename_request(operation: &RenameOperation) -> (r: (&str, &str))
    ensures
        r.0@ == operation.tab_id@,
        r.1@ == operation.to@,
{
    (operation.tab_id.as_str(), operation.to.as_str())
}

/// The rename request for `op`, with what Herdr answered.
pub open spec fn rename_call(op: SpecRename, outcome: Result<(), HerdrError>) -> HerdrCall {
    HerdrCall::RenameTab { id: op.tab_id, title: op.to, outcome }
}

/// Whether `sent` asks for the first `sent.len()` renames of `ops`, in order,
/// each but the last answered with success.
pub open spec fn sends_plan_prefix(ops: Seq<SpecRename>, sent: Seq<HerdrCall>) -> bool {
    &&& sent.len() <= ops.len()
    &&& forall|i: int|
        0 <= i < sent.len() ==> (#[trigger] sent[i] matches HerdrCall::RenameTab {
            id,
            title,
            outcome,
        } && id == ops[i].tab_id && title == ops[i].to && (i + 1 < sent.len() ==> outcome is Ok))
}

/// What a refresh does after listing the tabs: `sent` are the calls it makes
/// next and `r` what it returns.
///
/// A listing error is returned at once. Otherwise the planned renames are
/// requested in order until one fails; that failure is returned, and when
/// none fails the count of planned renames is.
pub open spec fn refresh_outcome(
    format: Seq<SpecToken>,
    listing: Result<Seq<SpecTab>, HerdrError>,
    sent: Seq<HerdrCall>,
    r: Result<usize, HerdrError>,
) -> bool {
    match listing {
        Err(error) => sent.len() == 0 && r == Err::<usize, HerdrError>(error),
        Ok(tabs) => {
            let ops = rename_plan(format, tabs);
            &&& sends_plan_prefix(ops, sent)
            &&& match r {
                Ok(count) => {
                    &&& count == ops.len()
                    &&& sent.len() == ops.len()
                    &&& sent.len() > 0 ==> (sent.last() matches HerdrCall::RenameTab {
                        outcome,
                        ..
                    } && outcome is Ok)
                },
                Err(error) => {
                    &&& sent.len() > 0
                    &&& sent.last() matches HerdrCall::RenameTab { outcome, .. }
                        && outcome == Err::<(), HerdrError>(error)
                },
            }
        },
    }
}

/// Renames, through `client`, every tab whose title is not the numbered one,
/// in planned order, stopping at the first failure; returns how many renames
/// were planned. The client is asked to list the tabs once, then for the
/// renames, and for nothing else: no tab is focused.
pub fn refresh<C: HerdrApi>(client: &mut C, formatter: &Formatter) -> (r: Result<usize, HerdrError>)
    ensures
        final(client).calls().len() > old(client).calls().len(),
        final(client).calls().take(old(client).calls().len() as int) == old(client).calls(),
        final(client).calls()[old(client).calls().len() as int] matches HerdrCall::ListTabs(
            listing,
        ) && refresh_outcome(
            formatter@,
            listing,
            final(client).calls().skip(old(client).calls().len() as int + 1),
            r,
        ),
{
    let ghost before = client.calls();
    let planned = plan_renames(client, formatter);
    let ghost listed = client.calls();
    let ghost listing = match listed.last() {
        HerdrCall::ListTabs(listing) => listing,
        _ => arbitrary(),
    };
    assert(listed.take(before.len() as int) =~= before);
    let operations = match planned {
        Ok(operations) => operations,
        Err(error) => {
            assert(listed.skip(before.len() as int + 1) =~= Seq::<HerdrCall>::empty());
            return Err(error);
        },
    };
    let ghost ops = renames_view(operations@);
    let count = operations.len();
    let mut k: usize = 0;
    assert(listed.skip(before.len() as int + 1) =~= Seq::<HerdrCall>::empty());
    while k < count
        invariant
            count == operations@.len(),
            ops == renames_view(operations@),
            0 <= k <= count,
            before == old(client).calls(),
            listed.len() == before.len() + 1,
            listed.take(before.len() as int) == before,
            listed[before.len() as int] == HerdrCall::ListTabs(listing),
            listing matches Ok(tabs) && ops == rename_plan(formatter@, tabs),
            client.calls().len() == listed.len() + k,
            client.calls().take(listed.len() as int) == listed,
            forall|i: int|
                0 <= i < k ==> #[trigger] client.calls()[listed.len() + i] == rename_call(
                    ops[i],
                    Ok(()),
                ),
        decreases count - k,
    {
        let (id, title) = rename_request(&operations[k]);
        let ghost sent_before = client.calls();
        let outcome = client.rename_tab(id, title);
        assert(client.calls() == sent_before.push(rename_call(ops[k as int], outcome)));
        assert(client.calls().take(listed.len() as int) =~= listed) by {
            assert(sent_before.take(listed.len() as int) == listed);
        }
        assert(client.calls().take(before.len() as int) =~= before);
        match outcome {
            Ok(done) => {
                assert(outcome == Ok::<(), HerdrError>(done));
                assert forall|i: int| 0 <= i < k + 1 implies #[trigger] client.calls()[listed.len()
                    + i] == rename_call(ops[i], Ok(())) by {
                    if i < k {
                        assert(client.calls()[listed.len() + i] == sent_before[listed.len() + i]);
                    } else {
                        assert(client.calls()[listed.len() + i] == rename_call(ops[i], outcome));
                    }
                }
            },
            Err(error) => {
                proof {
                    let sent = client.calls().skip(before.len() as int + 1);
                    assert forall|i: int| 0 <= i < sent.len() implies (#[trigger] sent[i]
                        matches HerdrCall::RenameTab { id, title, outcome } && id == ops[i].tab_id
                        && title == ops[i].to && (i + 1 < sent.len() ==> outcome is Ok)) by {
                        assert(sent[i] == client.calls()[listed.len() + i]);
                    }
                }
                return Err(error);
            },
        }
        k = k + 1;
    }
    proof {
        let sent = client.calls().skip(before.len() as int + 1);
        assert forall|i: int| 0 <= i < sent.len() implies (#[trigger] sent[i]
            matches HerdrCall::RenameTab { id, title, outcome } && id == ops[i].tab_id && title
            == ops[i].to && (i + 1 < sent.len() ==> outcome is Ok)) by {
            assert(sent[i] == client.calls()[listed.len() + i]);
        }
        if sent.len() > 0 {
            assert(sent.last() == client.calls()[listed.len() + (k - 1)]);
        }
    }
    Ok(count)
}

} // verus!
