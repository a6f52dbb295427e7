//! The tray-menu model: a flat ordered list of entries derived wholesale
//! from a fresh query of both tool families — one checkable item per
//! profile with the applied entry marked, a disabled placeholder for an
//! empty family, and section headers between fixed rows. Click events are
//! dispatched back by item id.

use vstd::prelude::*;
use crate::apply::json_field;
use crate::json::compat_field;
use crate::json::get_opt_str_compat;
use crate::json::number_as_i64;
use crate::json::spec_compat_field;
use crate::json::spec_get_opt_str_compat;
use crate::json::JsonData;
use crate::json::JsonVal;
use crate::strutil::is_prefix;
use crate::strutil::lemma_lex_le_total;
use crate::strutil::lemma_lex_le_trans;
use crate::strutil::lex_le;
use crate::strutil::str_eq;
use crate::strutil::str_lex_le;
use crate::strutil::starts_with_str;
use crate::strutil::concat_strs;

verus! {

/// One row of a family's tray section: a profile's id, display name and
/// applied flag.
#[derive(Debug, PartialEq)]
pub struct TrayRow {
    pub id: String,
    pub name: String,
    pub applied: bool,
}

/// A row of the second family's section, carrying its sort index.
#[derive(Debug, PartialEq)]
pub struct ClaudeTrayRow {
    pub id: String,
    pub name: String,
    pub applied: bool,
    pub sort_index: i64,
}

/// The view of a plain row.
pub open spec fn row_view(r: TrayRow) -> (Seq<char>, Seq<char>, bool) {
    (r.id@, r.name@, r.applied)
}

/// The views of a row vector.
pub open spec fn rows_view(s: Seq<TrayRow>) -> Seq<(Seq<char>, Seq<char>, bool)> {
    Seq::new(s.len(), |i: int| row_view(s[i]))
}

/// The view of an indexed row.
pub open spec fn claude_row_view(r: ClaudeTrayRow) -> (Seq<char>, Seq<char>, bool, i64) {
    (r.id@, r.name@, r.applied, r.sort_index)
}

/// The views of an indexed row vector.
pub open spec fn claude_rows_view(s: Seq<ClaudeTrayRow>) -> Seq<(Seq<char>, Seq<char>, bool, i64)> {
    Seq::new(s.len(), |i: int| claude_row_view(s[i]))
}

/// One entry of the flat tray menu.
#[derive(Debug, PartialEq)]
pub enum MenuEntry {
    ShowWindow,
    Separator,
    Header(String),
    Item { id: String, label: String, checked: bool, enabled: bool },
    Quit,
}

/// The mathematical shape of a menu entry.
#[verifier::ext_equal]
pub enum MenuEntryData {
    ShowWindow,
    Separator,
    Header(Seq<char>),
    Item { id: Seq<char>, label: Seq<char>, checked: bool, enabled: bool },
    Quit,
}

impl View for MenuEntry {
    type V = MenuEntryData;

    open spec fn view(&self) -> MenuEntryData {
        match self {
            MenuEntry::ShowWindow => MenuEntryData::ShowWindow,
            MenuEntry::Separator => MenuEntryData::Separator,
            MenuEntry::Header(t) => MenuEntryData::Header(t@),
            MenuEntry::Item { id, label, checked, enabled } => MenuEntryData::Item {
                id: id@,
                label: label@,
                checked: *checked,
                enabled: *enabled,
            },
            MenuEntry::Quit => MenuEntryData::Quit,
        }
    }
}

/// The views of a menu vector.
pub open spec fn menu_view(s: Seq<MenuEntry>) -> Seq<MenuEntryData> {
    Seq::new(s.len(), |i: int| s[i]@)
}

/// A family's section: one enabled checkable item per row, the applied row
/// marked; an empty family renders one disabled placeholder row.
pub open spec fn spec_section(
    rows: Seq<(Seq<char>, Seq<char>, bool)>,
    prefix: Seq<char>,
    empty_id: Seq<char>,
) -> Seq<MenuEntryData> {
    if rows.len() == 0 {
        seq![
            MenuEntryData::Item {
                id: empty_id,
                label: "No configurations"@,
                checked: false,
                enabled: false,
            },
        ]
    } else {
        Seq::new(
            rows.len(),
            |i: int|
                MenuEntryData::Item {
                    id: prefix + rows[i].0,
                    label: rows[i].1,
                    checked: rows[i].2,
                    enabled: true,
                },
        )
    }
}

/// The whole flat menu: the window row, both family sections under their
/// headers, and the quit row.
pub open spec fn spec_tray_menu(
    omo: Seq<(Seq<char>, Seq<char>, bool)>,
    claude: Seq<(Seq<char>, Seq<char>, bool)>,
) -> Seq<MenuEntryData> {
    seq![
        MenuEntryData::ShowWindow,
        MenuEntryData::Separator,
        MenuEntryData::Header("Oh My OpenCode"@),
    ] + spec_section(omo, "omo_config_"@, "omo_empty"@) + seq![
        MenuEntryData::Separator,
        MenuEntryData::Header("Providers"@),
    ] + spec_section(claude, "claude_provider_"@, "claude_empty"@) + seq![MenuEntryData::Quit]
}

/// Drops the sort component of indexed rows.
pub open spec fn claude_plain(s: Seq<(Seq<char>, Seq<char>, bool, i64)>) -> Seq<
    (Seq<char>, Seq<char>, bool),
> {
    Seq::new(s.len(), |i: int| (s[i].0, s[i].1, s[i].2))
}


proof fn lemma_menu_view_push(s: Seq<MenuEntry>, e: MenuEntry)
    ensures
        menu_view(s.push(e)) =~~= menu_view(s).push(e@),
{
    assert forall|j: int| 0 <= j < s.len() + 1 implies menu_view(s.push(e))[j] == menu_view(
        s,
    ).push(e@)[j] by {
        if j < s.len() {
            assert(s.push(e)[j] == s[j]);
        } else {
            assert(s.push(e)[j] == e);
        }
    }
}

proof fn lemma_add_push(a: Seq<MenuEntryData>, b: Seq<MenuEntryData>, x: MenuEntryData)
    ensures
        (a + b).push(x) =~= a + b.push(x),
{
}

/// Builds one family section.
#[verifier::loop_isolation(false)]
fn build_section(rows: &Vec<TrayRow>, prefix: &str, empty_id: &str, out: &mut Vec<MenuEntry>)
    ensures
        menu_view(final(out)@) =~~= menu_view(old(out)@) + spec_section(
            rows_view(rows@),
            prefix@,
            empty_id@,
        ),
{
    if rows.len() == 0 {
        out.push(
            MenuEntry::Item {
                id: empty_id.to_owned(),
                label: "No configurations".to_owned(),
                checked: false,
                enabled: false,
            },
        );
        proof {
            assert(menu_view(out@) =~~= menu_view(old(out)@) + spec_section(
                rows_view(rows@),
                prefix@,
                empty_id@,
            ));
        }
        return ;
    }
    let ghost base = out@;
    let mut i: usize = 0;
    while i < rows.len()
        invariant
            i <= rows@.len(),
            menu_view(out@) =~~= menu_view(base) + spec_section(
                rows_view(rows@),
                prefix@,
                empty_id@,
            ).take(i as int),
        decreases rows@.len() - i,
    {
        let id = concat_strs(prefix, rows[i].id.as_str());
        let label = rows[i].name.clone();
        let checked = rows[i].applied;
        let ghost prev = out@;
        out.push(MenuEntry::Item { id, label, checked, enabled: true });
        i += 1;
        proof {
            let sec = spec_section(rows_view(rows@), prefix@, empty_id@);
            let e = out@.last();
            assert(out@ =~= prev.push(e));
            lemma_menu_view_push(prev, e);
            assert(e@ == sec[i as int - 1]);
            assert(sec.take(i as int) =~~= sec.take(i as int - 1).push(sec[i as int - 1]));
            lemma_add_push(menu_view(base), sec.take(i as int - 1), e@);
            assert(menu_view(out@) =~~= menu_view(base) + sec.take(i as int));
        }
    }
    proof {
        let sec = spec_section(rows_view(rows@), prefix@, empty_id@);
        assert(sec.take(rows@.len() as int) =~~= sec);
    }
}

/// Renders the flat menu from already-sorted rows of both families.
#[verifier::loop_isolation(false)]
pub fn build_tray_menu(omo: &Vec<TrayRow>, claude: &Vec<TrayRow>) -> (r: Vec<MenuEntry>)
    ensures
        menu_view(r@) == spec_tray_menu(rows_view(omo@), rows_view(claude@)),
{
    let mut out: Vec<MenuEntry> = Vec::new();
    out.push(MenuEntry::ShowWindow);
    out.push(MenuEntry::Separator);
    out.push(MenuEntry::Header("Oh My OpenCode".to_owned()));
    let ghost head = menu_view(out@);
    proof {
        assert(head =~~= seq![
            MenuEntryData::ShowWindow,
            MenuEntryData::Separator,
            MenuEntryData::Header("Oh My OpenCode"@),
        ]);
    }
    build_section(omo, "omo_config_", "omo_empty", &mut out);
    out.push(MenuEntry::Separator);
    out.push(MenuEntry::Header("Providers".to_owned()));
    let ghost mid = menu_view(out@);
    proof {
        assert(mid =~~= head + spec_section(rows_view(omo@), "omo_config_"@, "omo_empty"@) + seq![
            MenuEntryData::Separator,
            MenuEntryData::Header("Providers"@),
        ]);
    }
    build_section(claude, "claude_provider_", "claude_empty", &mut out);
    out.push(MenuEntry::Quit);
    proof {
        assert(menu_view(out@) =~~= spec_tray_menu(rows_view(omo@), rows_view(claude@)));
    }
    out
}

/// Rows ordered by display name in code-point order.
pub open spec fn rows_sorted_by_name(ps: Seq<TrayRow>) -> bool {
    forall|i: int, j: int|
        0 <= i <= j < ps.len() ==> lex_le((#[trigger] ps[i]).name@, (#[trigger] ps[j]).name@)
}

/// Sorts rows by display name; the result holds exactly the input's rows.
#[verifier::loop_isolation(false)]
pub fn sort_rows_by_name(input: Vec<TrayRow>) -> (r: Vec<TrayRow>)
    ensures
        r@.to_multiset() == input@.to_multiset(),
        rows_sorted_by_name(r@),
{
    broadcast use vstd::seq_lib::group_to_multiset_ensures;

    let mut rest = input;
    let ghost orig = rest@.to_multiset();
    let mut out: Vec<TrayRow> = Vec::new();
    proof {
        assert(out@.to_multiset().add(rest@.to_multiset()) =~= orig);
    }
    while rest.len() > 0
        invariant
            out@.to_multiset().add(rest@.to_multiset()) == orig,
            rows_sorted_by_name(out@),
            forall|i: int, j: int|
                0 <= i < out@.len() && 0 <= j < rest@.len() ==> lex_le(
                    (#[trigger] out@[i]).name@,
                    (#[trigger] rest@[j]).name@,
                ),
        decreases rest@.len(),
    {
        let mut min: usize = 0;
        let mut k: usize = 1;
        proof {
            lemma_lex_le_total(rest@[0].name@, rest@[0].name@);
        }
        while k < rest.len()
            invariant
                min < rest@.len(),
                k <= rest@.len(),
                forall|j: int| 0 <= j < k ==> lex_le(
                    rest@[min as int].name@,
                    (#[trigger] rest@[j]).name@,
                ),
            decreases rest@.len() - k,
        {
            if str_lex_le(rest[k].name.as_str(), rest[min].name.as_str()) {
                proof {
                    assert forall|j: int| 0 <= j < k + 1 implies lex_le(
                        rest@[k as int].name@,
                        (#[trigger] rest@[j]).name@,
                    ) by {
                        if j < k {
                            lemma_lex_le_trans(
                                rest@[k as int].name@,
                                rest@[min as int].name@,
                                rest@[j].name@,
                            );
                        } else {
                            lemma_lex_le_total(rest@[k as int].name@, rest@[k as int].name@);
                        }
                    }
                }
                min = k;
            } else {
                proof {
                    lemma_lex_le_total(rest@[k as int].name@, rest@[min as int].name@);
                }
            }
            k += 1;
        }
        let ghost rest_before = rest@;
        let picked = rest.remove(min);
        proof {
            assert(rest@.to_multiset() =~= rest_before.to_multiset().remove(picked));
            assert(forall|j: int|
                0 <= j < rest@.len() ==> lex_le(picked.name@, (#[trigger] rest@[j]).name@)) by {
                assert(forall|j: int|
                    0 <= j < rest@.len() ==> rest@[j] == if j < min {
                        rest_before[j]
                    } else {
                        rest_before[j + 1]
                    });
            }
        }
        let ghost out_before = out@;
        out.push(picked);
        proof {
            assert(out@.to_multiset() =~= out_before.to_multiset().insert(picked));
            assert(rest_before.to_multiset().count(picked) > 0);
            assert(out@.to_multiset().add(rest@.to_multiset()) =~= orig);
            assert(forall|i: int|
                0 <= i < out_before.len() ==> out@[i] == out_before[i]);
        }
    }
    proof {
        assert(rest@.to_multiset() =~= vstd::multiset::Multiset::<TrayRow>::empty());
        assert(out@.to_multiset() =~= orig);
    }
    out
}

/// Indexed rows ordered by ascending sort index.
pub open spec fn claude_rows_sorted(ps: Seq<ClaudeTrayRow>) -> bool {
    forall|i: int, j: int|
        0 <= i <= j < ps.len() ==> (#[trigger] ps[i]).sort_index <= (#[trigger] ps[j]).sort_index
}

/// Sorts indexed rows by ascending sort index; the result holds exactly
/// the input's rows.
#[verifier::loop_isolation(false)]
pub fn sort_claude_rows(input: Vec<ClaudeTrayRow>) -> (r: Vec<ClaudeTrayRow>)
    ensures
        r@.to_multiset() == input@.to_multiset(),
        claude_rows_sorted(r@),
{
    broadcast use vstd::seq_lib::group_to_multiset_ensures;

    let mut rest = input;
    let ghost orig = rest@.to_multiset();
    let mut out: Vec<ClaudeTrayRow> = Vec::new();
    proof {
        assert(out@.to_multiset().add(rest@.to_multiset()) =~= orig);
    }
    while rest.len() > 0
        invariant
            out@.to_multiset().add(rest@.to_multiset()) == orig,
            claude_rows_sorted(out@),
            forall|i: int, j: int|
                0 <= i < out@.len() && 0 <= j < rest@.len() ==> (#[trigger] out@[i]).sort_index
                    <= (#[trigger] rest@[j]).sort_index,
        decreases rest@.len(),
    {
        let mut min: usize = 0;
        let mut k: usize = 1;
        while k < rest.len()
            invariant
                min < rest@.len(),
                k <= rest@.len(),
                forall|j: int|
                    0 <= j < k ==> rest@[min as int].sort_index <= (#[trigger] rest@[j]).sort_index,
            decreases rest@.len() - k,
        {
            if rest[k].sort_index < rest[min].sort_index {
                min = k;
            }
            k += 1;
        }
        let ghost rest_before = rest@;
        let picked = rest.remove(min);
        proof {
            assert(rest@.to_multiset() =~= rest_before.to_multiset().remove(picked));
            assert(forall|j: int|
                0 <= j < rest@.len() ==> picked.sort_index <= (#[trigger] rest@[j]).sort_index) by {
                assert(forall|j: int|
                    0 <= j < rest@.len() ==> rest@[j] == if j < min {
                        rest_before[j]
                    } else {
                        rest_before[j + 1]
                    });
            }
        }
        let ghost out_before = out@;
        out.push(picked);
        proof {
            assert(out@.to_multiset() =~= out_before.to_multiset().insert(picked));
            assert(rest_before.to_multiset().count(picked) > 0);
            assert(out@.to_multiset().add(rest@.to_multiset()) =~= orig);
            assert(forall|i: int|
                0 <= i < out_before.len() ==> out@[i] == out_before[i]);
        }
    }
    proof {
        assert(rest@.to_multiset() =~= vstd::multiset::Multiset::<ClaudeTrayRow>::empty());
        assert(out@.to_multiset() =~= orig);
    }
    out
}

/// Forgets the sort index of every row, in order.
pub fn strip_sort_index(rows: Vec<ClaudeTrayRow>) -> (r: Vec<TrayRow>)
    ensures
        rows_view(r@) =~~= claude_plain(claude_rows_view(rows@)),
{
    let mut out: Vec<TrayRow> = Vec::new();
    let mut i: usize = 0;
    while i < rows.len()
        invariant
            i <= rows@.len(),
            rows_view(out@) =~~= claude_plain(claude_rows_view(rows@)).take(i as int),
        decreases rows@.len() - i,
    {
        out.push(
            TrayRow {
                id: rows[i].id.clone(),
                name: rows[i].name.clone(),
                applied: rows[i].applied,
            },
        );
        i += 1;
        proof {
            let target = claude_plain(claude_rows_view(rows@));
            assert(target.take(i as int) =~~= target.take(i as int - 1).push(
                target[i as int - 1],
            ));
            assert(row_view(out@[out@.len() - 1]) == target[i as int - 1]);
            assert(rows_view(out@) =~~= target.take(i as int));
        }
    }
    proof {
        assert(claude_plain(claude_rows_view(rows@)).take(rows@.len() as int) =~~= claude_plain(
            claude_rows_view(rows@),
        ));
    }
    out
}

/// The views of a record vector.
pub open spec fn vals_view(s: Seq<JsonVal>) -> Seq<JsonData> {
    Seq::new(s.len(), |i: int| s[i]@)
}

/// The row a record of the first family yields: its display name, its id
/// under the current or the legacy key, and its applied flag; a record
/// missing any of the three is skipped.
pub open spec fn omo_row_of(rec: JsonData) -> Option<(Seq<char>, Seq<char>, bool)> {
    let name = match json_field(rec, "name"@) {
        Option::Some(JsonData::Str(t)) => Option::Some(t),
        _ => Option::<Seq<char>>::None,
    };
    let id = spec_get_opt_str_compat(rec, "config_id"@, "configId"@);
    let applied = match spec_compat_field(rec, "is_applied"@, "isApplied"@) {
        Option::Some(JsonData::Bool(b)) => Option::Some(b),
        _ => Option::<bool>::None,
    };
    if name is Some && id is Some && applied is Some {
        Option::Some((id.unwrap(), name.unwrap(), applied.unwrap()))
    } else {
        Option::None
    }
}

/// The rows the first family's records yield, in record order.
pub open spec fn spec_omo_rows(recs: Seq<JsonData>) -> Seq<(Seq<char>, Seq<char>, bool)>
    decreases recs.len(),
{
    if recs.len() == 0 {
        Seq::empty()
    } else {
        match omo_row_of(recs[0]) {
            Option::Some(t) => seq![t] + spec_omo_rows(recs.drop_first()),
            Option::None => spec_omo_rows(recs.drop_first()),
        }
    }
}

proof fn lemma_omo_rows_snoc(recs: Seq<JsonData>, e: JsonData)
    ensures
        spec_omo_rows(recs.push(e)) == match omo_row_of(e) {
            Option::Some(t) => spec_omo_rows(recs) + seq![t],
            Option::None => spec_omo_rows(recs),
        },
    decreases recs.len(),
{
    if recs.len() == 0 {
        reveal_with_fuel(spec_omo_rows, 3);
        assert(recs.push(e).drop_first() =~~= Seq::<JsonData>::empty());
        assert(recs.push(e)[0] == e);
        if omo_row_of(e) is Some {
            assert(spec_omo_rows(recs.push(e)) =~~= spec_omo_rows(recs) + seq![
                omo_row_of(e).unwrap(),
            ]);
        }
    } else {
        assert(recs.push(e).drop_first() =~~= recs.drop_first().push(e));
        assert(recs.push(e)[0] == recs[0]);
        lemma_omo_rows_snoc(recs.drop_first(), e);
        if omo_row_of(recs[0]) is Some && omo_row_of(e) is Some {
            assert(seq![omo_row_of(recs[0]).unwrap()] + (spec_omo_rows(recs.drop_first()) + seq![
                omo_row_of(e).unwrap(),
            ]) =~~= (seq![omo_row_of(recs[0]).unwrap()] + spec_omo_rows(recs.drop_first()))
                + seq![omo_row_of(e).unwrap()]);
        }
    }
}

/// The row a record of the second family yields: display name, id and
/// applied flag as for the first family, plus its sort index (zero when
/// missing or not an integer).
pub open spec fn claude_row_of(rec: JsonData) -> Option<(Seq<char>, Seq<char>, bool, i64)> {
    let name = match json_field(rec, "name"@) {
        Option::Some(JsonData::Str(t)) => Option::Some(t),
        _ => Option::<Seq<char>>::None,
    };
    let id = spec_get_opt_str_compat(rec, "provider_id"@, "providerId"@);
    let applied = match spec_compat_field(rec, "is_applied"@, "isApplied"@) {
        Option::Some(JsonData::Bool(b)) => Option::Some(b),
        _ => Option::<bool>::None,
    };
    let sort = match spec_compat_field(rec, "sort_index"@, "sortIndex"@) {
        Option::Some(JsonData::Num(_, Option::Some(v))) => v,
        _ => 0i64,
    };
    if name is Some && id is Some && applied is Some {
        Option::Some((id.unwrap(), name.unwrap(), applied.unwrap(), sort))
    } else {
        Option::None
    }
}

/// The rows the second family's records yield, in record order.
pub open spec fn spec_claude_rows(recs: Seq<JsonData>) -> Seq<(Seq<char>, Seq<char>, bool, i64)>
    decreases recs.len(),
{
    if recs.len() == 0 {
        Seq::empty()
    } else {
        match claude_row_of(recs[0]) {
            Option::Some(t) => seq![t] + spec_claude_rows(recs.drop_first()),
            Option::None => spec_claude_rows(recs.drop_first()),
        }
    }
}

proof fn lemma_claude_rows_snoc(recs: Seq<JsonData>, e: JsonData)
    ensures
        spec_claude_rows(recs.push(e)) == match claude_row_of(e) {
            Option::Some(t) => spec_claude_rows(recs) + seq![t],
            Option::None => spec_claude_rows(recs),
        },
    decreases recs.len(),
{
    if recs.len() == 0 {
        reveal_with_fuel(spec_claude_rows, 3);
        assert(recs.push(e).drop_first() =~~= Seq::<JsonData>::empty());
        assert(recs.push(e)[0] == e);
        if claude_row_of(e) is Some {
            assert(spec_claude_rows(recs.push(e)) =~~= spec_claude_rows(recs) + seq![
                claude_row_of(e).unwrap(),
            ]);
        }
    } else {
        assert(recs.push(e).drop_first() =~~= recs.drop_first().push(e));
        assert(recs.push(e)[0] == recs[0]);
        lemma_claude_rows_snoc(recs.drop_first(), e);
        if claude_row_of(recs[0]) is Some && claude_row_of(e) is Some {
            assert(seq![claude_row_of(recs[0]).unwrap()] + (spec_claude_rows(recs.drop_first())
                + seq![claude_row_of(e).unwrap()]) =~~= (seq![claude_row_of(recs[0]).unwrap()]
                + spec_claude_rows(recs.drop_first())) + seq![claude_row_of(e).unwrap()]);
        }
    }
}

/// Extracts the first family's rows from its queried records, skipping any
/// record that lacks a name, an id (under either key) or an applied flag.
#[verifier::loop_isolation(false)]
pub fn omo_rows_from_records(records: &Vec<JsonVal>) -> (r: Vec<TrayRow>)
    ensures
        rows_view(r@) == spec_omo_rows(vals_view(records@)),
{
    let ghost vv = vals_view(records@);
    let mut out: Vec<TrayRow> = Vec::new();
    let mut i: usize = 0;
    proof {
        assert(vv.take(0) =~~= Seq::<JsonData>::empty());
        assert(rows_view(out@) =~~= spec_omo_rows(vv.take(0)));
    }
    while i < records.len()
        invariant
            i <= records@.len(),
            rows_view(out@) =~~= spec_omo_rows(vv.take(i as int)),
        decreases records@.len() - i,
    {
        let rec = &records[i];
        let name: Option<String> = match field_of_local(rec, "name") {
            Option::Some(JsonVal::Str(s)) => Option::Some(s.clone()),
            _ => Option::None,
        };
        let id = get_opt_str_compat(rec, "config_id", "configId");
        let applied: Option<bool> = match compat_field(rec, "is_applied", "isApplied") {
            Option::Some(JsonVal::Bool(b)) => Option::Some(*b),
            _ => Option::None,
        };
        let ghost prev = out@;
        match (id, name, applied) {
            (Option::Some(idv), Option::Some(namev), Option::Some(appliedv)) => {
                out.push(TrayRow { id: idv, name: namev, applied: appliedv });
            },
            _ => {},
        }
        i += 1;
        proof {
            assert(vv.take(i as int) =~~= vv.take(i as int - 1).push(vv[i as int - 1]));
            lemma_omo_rows_snoc(vv.take(i as int - 1), vv[i as int - 1]);
            assert(rows_view(out@) =~~= spec_omo_rows(vv.take(i as int))) by {
                if omo_row_of(vv[i as int - 1]) is Some {
                    assert(out@ =~= prev.push(out@.last()));
                    assert(row_view(out@.last()) == omo_row_of(vv[i as int - 1]).unwrap());
                }
            }
        }
    }
    proof {
        assert(vv.take(records@.len() as int) =~~= vv);
    }
    out
}

/// Extracts the second family's rows from its queried records, skipping
/// incomplete records; a missing or non-integer sort index counts as zero.
#[verifier::loop_isolation(false)]
pub fn claude_rows_from_records(records: &Vec<JsonVal>) -> (r: Vec<ClaudeTrayRow>)
    ensures
        claude_rows_view(r@) == spec_claude_rows(vals_view(records@)),
{
    let ghost vv = vals_view(records@);
    let mut out: Vec<ClaudeTrayRow> = Vec::new();
    let mut i: usize = 0;
    proof {
        assert(vv.take(0) =~~= Seq::<JsonData>::empty());
        assert(claude_rows_view(out@) =~~= spec_claude_rows(vv.take(0)));
    }
    while i < records.len()
        invariant
            i <= records@.len(),
            claude_rows_view(out@) =~~= spec_claude_rows(vv.take(i as int)),
        decreases records@.len() - i,
    {
        let rec = &records[i];
        let name: Option<String> = match field_of_local(rec, "name") {
            Option::Some(JsonVal::Str(s)) => Option::Some(s.clone()),
            _ => Option::None,
        };
        let id = get_opt_str_compat(rec, "provider_id", "providerId");
        let applied: Option<bool> = match compat_field(rec, "is_applied", "isApplied") {
            Option::Some(JsonVal::Bool(b)) => Option::Some(*b),
            _ => Option::None,
        };
        let sort: i64 = match compat_field(rec, "sort_index", "sortIndex") {
            Option::Some(JsonVal::Num(n)) => {
                match number_as_i64(n) {
                    Option::Some(v) => v,
                    Option::None => 0,
                }
            },
            _ => 0,
        };
        let ghost prev = out@;
        match (id, name, applied) {
            (Option::Some(idv), Option::Some(namev), Option::Some(appliedv)) => {
                out.push(
                    ClaudeTrayRow { id: idv, name: namev, applied: appliedv, sort_index: sort },
                );
            },
            _ => {},
        }
        i += 1;
        proof {
            assert(vv.take(i as int) =~~= vv.take(i as int - 1).push(vv[i as int - 1]));
            lemma_claude_rows_snoc(vv.take(i as int - 1), vv[i as int - 1]);
            assert(claude_rows_view(out@) =~~= spec_claude_rows(vv.take(i as int))) by {
                if claude_row_of(vv[i as int - 1]) is Some {
                    assert(out@ =~= prev.push(out@.last()));
                    assert(claude_row_view(out@.last()) == claude_row_of(
                        vv[i as int - 1],
                    ).unwrap());
                }
            }
        }
    }
    proof {
        assert(vv.take(records@.len() as int) =~~= vv);
    }
    out
}

/// The value at a top-level key of a record.
fn field_of_local<'a>(v: &'a JsonVal, key: &str) -> (r: Option<&'a JsonVal>)
    ensures
        r is Some <==> json_field(v@, key@) is Some,
        r matches Some(x) ==> Option::Some(x@) == json_field(v@, key@),
{
    crate::apply::field_of(v, key)
}

/// Rebuilds the whole flat menu from fresh query results of both families:
/// the first family's rows sorted by display name, the second's by sort
/// index, each section rendered with a checkmark on the applied entry.
pub fn refresh_tray_menus(omo_records: &Vec<JsonVal>, claude_records: &Vec<JsonVal>) -> (r: Vec<
    MenuEntry,
>)
    ensures
        exists|o: Seq<TrayRow>, c: Seq<ClaudeTrayRow>|
            {
                &&& rows_view_multiset_eq(o, spec_omo_rows(vals_view(omo_records@)))
                &&& rows_sorted_by_name(o)
                &&& claude_view_multiset_eq(c, spec_claude_rows(vals_view(claude_records@)))
                &&& claude_rows_sorted(c)
                &&& menu_view(r@) == spec_tray_menu(rows_view(o), claude_plain(claude_rows_view(c)))
            },
{
    let omo_raw = omo_rows_from_records(omo_records);
    let omo_sorted = sort_rows_by_name(omo_raw);
    let claude_raw = claude_rows_from_records(claude_records);
    let claude_sorted = sort_claude_rows(claude_raw);
    let ghost o = omo_sorted@;
    let ghost c = claude_sorted@;
    let claude_plain_rows = strip_sort_index(claude_sorted);
    let r = build_tray_menu(&omo_sorted, &claude_plain_rows);
    proof {
        assert(rows_view_multiset_eq(o, spec_omo_rows(vals_view(omo_records@))));
        assert(claude_view_multiset_eq(c, spec_claude_rows(vals_view(claude_records@))));
        assert(menu_view(r@) == spec_tray_menu(rows_view(o), claude_plain(claude_rows_view(c))));
    }
    r
}

/// The rows hold exactly the given row values (as a multiset).
pub open spec fn rows_view_multiset_eq(
    rows: Seq<TrayRow>,
    views: Seq<(Seq<char>, Seq<char>, bool)>,
) -> bool {
    exists|raw: Seq<TrayRow>|
        rows_view(raw) == views && rows.to_multiset() == #[trigger] raw.to_multiset()
}

/// The indexed rows hold exactly the given row values (as a multiset).
pub open spec fn claude_view_multiset_eq(
    rows: Seq<ClaudeTrayRow>,
    views: Seq<(Seq<char>, Seq<char>, bool, i64)>,
) -> bool {
    exists|raw: Seq<ClaudeTrayRow>|
        claude_rows_view(raw) == views && rows.to_multiset() == #[trigger] raw.to_multiset()
}

/// What a tray click means: show the window, apply the clicked profile of
/// one of the two families, or nothing.
#[derive(Debug, PartialEq)]
pub enum TrayAction {
    ShowMainWindow,
    ApplyOmoConfig(String),
    ApplyClaudeProvider(String),
    Ignore,
}

/// Dispatches a tray click event by its item id: `show` opens the window,
/// and the two item-id prefixes map back to the clicked profile's own id.
pub fn tray_event_action(event_id: &str) -> (r: TrayAction)
    ensures
        event_id@ == "show"@ ==> r == TrayAction::ShowMainWindow,
        is_prefix("omo_config_"@, event_id@) ==> (r matches TrayAction::ApplyOmoConfig(id) && id@
            == event_id@.skip("omo_config_"@.len() as int)),
        is_prefix("claude_provider_"@, event_id@) ==> (r matches TrayAction::ApplyClaudeProvider(
            id,
        ) && id@ == event_id@.skip("claude_provider_"@.len() as int)),
        (event_id@ != "show"@ && !is_prefix("omo_config_"@, event_id@) && !is_prefix(
            "claude_provider_"@,
            event_id@,
        )) ==> r == TrayAction::Ignore,
{
    if str_eq(event_id, "show") {
        proof {
            reveal_strlit("show");
            reveal_strlit("omo_config_");
            reveal_strlit("claude_provider_");
            assert(!is_prefix("omo_config_"@, event_id@));
            assert(!is_prefix("claude_provider_"@, event_id@));
        }
        return TrayAction::ShowMainWindow;
    }
    if starts_with_str(event_id, "omo_config_") {
        let plen: usize = "omo_config_".unicode_len();
        let rest = event_id.substring_char(plen, event_id.unicode_len());
        proof {
            reveal_strlit("show");
            reveal_strlit("omo_config_");
            reveal_strlit("claude_provider_");
            assert(!is_prefix("claude_provider_"@, event_id@)) by {
                if is_prefix("claude_provider_"@, event_id@) {
                    assert(event_id@[0] == 'c');
                    assert(event_id@[0] == 'o');
                }
            }
            assert(rest@ =~= event_id@.skip("omo_config_"@.len() as int));
        }
        return TrayAction::ApplyOmoConfig(rest.to_owned());
    }
    if starts_with_str(event_id, "claude_provider_") {
        let plen: usize = "claude_provider_".unicode_len();
        let rest = event_id.substring_char(plen, event_id.unicode_len());
        proof {
            assert(rest@ =~= event_id@.skip("claude_provider_"@.len() as int));
        }
        return TrayAction::ApplyClaudeProvider(rest.to_owned());
    }
    TrayAction::Ignore
}

/// The dock policy when the minimize-to-tray preference changes: hide the
/// dock icon when minimizing to the tray, show it otherwise (a no-op on
/// platforms without a dock).
#[derive(Debug, PartialEq)]
pub enum TrayPolicy {
    HideDockIcon,
    ShowDockIcon,
}

/// Decides the dock policy for the minimize-to-tray preference.
pub fn apply_tray_policy(minimize_to_tray: bool) -> (r: TrayPolicy)
    ensures
        r == if minimize_to_tray {
            TrayPolicy::HideDockIcon
        } else {
            TrayPolicy::ShowDockIcon
        },
{
    if minimize_to_tray {
        TrayPolicy::HideDockIcon
    } else {
        TrayPolicy::ShowDockIcon
    }
}



} // verus!
