//! The selection projector: flattening the configured catalog into an
//! index-addressable list of (project, activity) choices and the display
//! labels the selection prompt shows for them.

use vstd::prelude::*;
use vstd::string::StringExecFns;

use crate::config::{AppConfig, ProjectS};

verus! {

/// One selectable choice: a project and one of its activity descriptions.
/// It has no identity beyond its position in the list built for one prompt.
pub struct SelectableTogglItem {
    pub project_id: u64,
    pub description: String,
}

impl SelectableTogglItem {
    /// A copy of this choice.
    pub fn duplicate(&self) -> (r: SelectableTogglItem)
        ensures
            r.project_id == self.project_id,
            r.description@ == self.description@,
    {
        SelectableTogglItem {
            project_id: self.project_id,
            description: self.description.clone(),
        }
    }
}

/// The rows one project contributes: its identifier and name paired with
/// each of its activity descriptions, in their configured order.
pub open spec fn rows_of(p: ProjectS) -> Seq<(int, Seq<char>, Seq<char>)> {
    Seq::new(p.entries.len(), |j: int| (p.id, p.name, p.entries[j]))
}

/// The catalog flattened into selection rows, project by project.
pub open spec fn flat_rows(ps: Seq<ProjectS>) -> Seq<(int, Seq<char>, Seq<char>)>
    decreases ps.len(),
{
    if ps.len() == 0 {
        seq![]
    } else {
        rows_of(ps[0]) + flat_rows(ps.drop_first())
    }
}

proof fn lemma_flat_rows_snoc(ps: Seq<ProjectS>, k: int)
    requires
        0 <= k < ps.len(),
    ensures
        flat_rows(ps.take(k + 1)) == flat_rows(ps.take(k)) + rows_of(ps[k]),
    decreases k,
{
    if k == 0 {
        assert(ps.take(1)[0] == ps[0]);
        assert(ps.take(1).drop_first() =~= Seq::<ProjectS>::empty());
        assert(ps.take(0) =~= Seq::<ProjectS>::empty());
        assert(flat_rows(ps.take(1)) =~= flat_rows(ps.take(0)) + rows_of(ps[0]));
    } else {
        let tl = ps.drop_first();
        lemma_flat_rows_snoc(tl, k - 1);
        assert(ps.take(k + 1)[0] == ps[0]);
        assert(ps.take(k + 1).drop_first() =~= tl.take(k));
        assert(ps.take(k)[0] == ps[0]);
        assert(ps.take(k).drop_first() =~= tl.take(k - 1));
        assert(tl[k - 1] == ps[k]);
        assert(flat_rows(ps.take(k + 1)) == rows_of(ps[0]) + (flat_rows(tl.take(k - 1))
            + rows_of(ps[k])));
        assert(rows_of(ps[0]) + (flat_rows(tl.take(k - 1)) + rows_of(ps[k])) =~= (rows_of(ps[0])
            + flat_rows(tl.take(k - 1))) + rows_of(ps[k]));
    }
}

/// The separator between an activity and its project in a selection label.
pub open spec fn sel_sep() -> Seq<char> {
    seq![' ', '@', ' ']
}

/// Render one selection label: the activity, a separator, the project name.
pub fn format_selection_item(project_name: String, entry_name: String) -> (r: String)
    ensures
        r@ == entry_name@ + sel_sep() + project_name@,
{
    let mut s = entry_name;
    s.append(" @ ");
    s.append(project_name.as_str());
    proof {
        reveal_strlit(" @ ");
        assert(" @ "@ =~= sel_sep());
    }
    s
}

/// Flatten the catalog for one selection prompt: the choices, and the
/// labels shown for them, in the same order, one pair per configured
/// activity of each project.
#[verifier::loop_isolation(false)]
pub fn build_selection_items_from(config: &AppConfig) -> (r: (
    Vec<SelectableTogglItem>,
    Vec<String>,
))
    ensures
        ({
            let rows = flat_rows(config.projects.deep_view());
            &&& r.0.len() == rows.len()
            &&& r.1.len() == rows.len()
            &&& forall|t: int|
                0 <= t < rows.len() ==> (#[trigger] r.0@[t]).project_id == rows[t].0
                    && r.0@[t].description@ == rows[t].2
            &&& forall|t: int|
                0 <= t < rows.len() ==> (#[trigger] r.1@[t])@ == rows[t].2 + sel_sep()
                    + rows[t].1
        }),
{
    let ghost ps = config.projects.deep_view();
    let mut items: Vec<SelectableTogglItem> = Vec::new();
    let mut labels: Vec<String> = Vec::new();
    let mut k: usize = 0;
    proof {
        assert(ps.take(0) =~= Seq::<ProjectS>::empty());
    }
    while k < config.projects.len()
        invariant
            k <= config.projects.len(),
            ps.len() == config.projects.len(),
            items.len() == flat_rows(ps.take(k as int)).len(),
            labels.len() == items.len(),
            forall|t: int|
                0 <= t < items.len() ==> (#[trigger] items@[t]).project_id == flat_rows(
                    ps.take(k as int),
                )[t].0 && items@[t].description@ == flat_rows(ps.take(k as int))[t].2,
            forall|t: int|
                0 <= t < labels.len() ==> (#[trigger] labels@[t])@ == flat_rows(
                    ps.take(k as int),
                )[t].2 + sel_sep() + flat_rows(ps.take(k as int))[t].1,
        decreases config.projects.len() - k,
    {
        let project = &config.projects[k];
        proof {
            assert(ps[k as int] == config.projects@[k as int].deep_view());
        }
        let ghost base = flat_rows(ps.take(k as int));
        let ghost prows = rows_of(ps[k as int]);
        let mut j: usize = 0;
        while j < project.entries.len()
            invariant
                j <= project.entries.len(),
                k < config.projects.len(),
                project == &config.projects@[k as int],
                ps[k as int] == config.projects@[k as int].deep_view(),
                prows == rows_of(ps[k as int]),
                prows.len() == project.entries.len(),
                base == flat_rows(ps.take(k as int)),
                items.len() == base.len() + j,
                labels.len() == items.len(),
                forall|t: int|
                    0 <= t < items.len() ==> (#[trigger] items@[t]).project_id == (base
                        + prows.take(j as int))[t].0 && items@[t].description@ == (base
                        + prows.take(j as int))[t].2,
                forall|t: int|
                    0 <= t < labels.len() ==> (#[trigger] labels@[t])@ == (base + prows.take(
                        j as int,
                    ))[t].2 + sel_sep() + (base + prows.take(j as int))[t].1,
            decreases project.entries.len() - j,
        {
            proof {
                assert(ps[k as int].entries[j as int] == config.projects@[k as int].entries@[
                    j as int]@);
            }
            let entry = project.entries[j].clone();
            let item = SelectableTogglItem { project_id: project.id, description: entry };
            let label = format_selection_item(
                project.name.clone(),
                project.entries[j].clone(),
            );
            items.push(item);
            labels.push(label);
            proof {
                assert(prows.take(j as int + 1) =~= prows.take(j as int).push(
                    prows[j as int],
                ));
                assert((base + prows.take(j as int + 1)) =~= (base + prows.take(j as int)).push(
                    prows[j as int],
                ));
            }
            j += 1;
        }
        proof {
            assert(prows.take(prows.len() as int) =~= prows);
            lemma_flat_rows_snoc(ps, k as int);
        }
        k += 1;
    }
    proof {
        assert(ps.take(ps.len() as int) =~= ps);
    }
    (items, labels)
}

} // verus!
