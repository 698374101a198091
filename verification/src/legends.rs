//! What is written on an instrument: names on the parts that a player touches, and
//! headings on the sheet.
use vstd::prelude::*;

use crate::lists::{self, Copied};
use crate::parts::{ElementSpec, Part};

verus! {

/// A name for a part.
#[derive(Clone, Copy, Debug)]
pub struct Legend {
    pub id: u32,
    pub name: &'static str,
}

/// A named region of an instrument's sheet, in tenths of a grid unit.
#[derive(Clone, Copy, Debug)]
pub struct PanelDef {
    pub x0: i32,
    pub y0: i32,
    pub x1: i32,
    pub y1: i32,
    pub name: &'static str,
}

/// A named region.
pub open spec fn heading(x0: int, y0: int, x1: int, y1: int, name: &'static str) -> PanelDef {
    PanelDef { x0: x0 as i32, y0: y0 as i32, x1: x1 as i32, y1: y1 as i32, name }
}

/// A named region.
pub fn boxed(x0: i32, y0: i32, x1: i32, y1: i32, name: &'static str) -> (r: PanelDef)
    ensures
        r == heading(x0 as int, y0 as int, x1 as int, y1 as int, name),
{
    PanelDef { x0, y0, x1, y1, name }
}

/// The name for a part among the first `n`: the first that there is.
pub open spec fn legend_for(names: Seq<Legend>, id: u32, n: int) -> Option<Seq<char>>
    decreases n,
{
    if n <= 0 {
        None
    } else {
        match legend_for(names, id, n - 1) {
            Some(s) => Some(s),
            None => if names[n - 1].id == id {
                Some(names[n - 1].name@)
            } else {
                None
            },
        }
    }
}

/// The parts, each with its name where it has one.
pub open spec fn labelled(doc: Seq<Part>, names: Seq<Legend>) -> Seq<Part> {
    Seq::new(
        doc.len(),
        |i: int|
            match legend_for(names, doc[i].id, names.len() as int) {
                Some(name) => Part { name, ..doc[i] },
                None => doc[i],
            },
    )
}

/// Writes the names on the parts.
pub fn name_controls(els: &mut Vec<ElementSpec>, names: &Vec<Legend>)
    ensures
        lists::views(final(els)@) == labelled(lists::views(old(els)@), names@),
{
    let ghost before = els@;
    let ghost want = labelled(lists::views(before), names@);
    let mut i: usize = 0;
    while i < els.len()
        invariant
            i <= els@.len(),
            els@.len() == before.len(),
            want == labelled(lists::views(before), names@),
            forall|k: int| 0 <= k < i ==> (#[trigger] els@[k])@ == want[k],
            forall|k: int| i <= k < els@.len() ==> #[trigger] els@[k] == before[k],
        decreases els.len() - i,
    {
        let id: u32 = els[i].id;
        let mut at: Option<usize> = None;
        let mut k: usize = 0;
        while k < names.len()
            invariant
                k <= names@.len(),
                match at {
                    Some(m) => m < k && legend_for(names@, id, k as int) == Some(names@[m as int].name@),
                    None => legend_for(names@, id, k as int) is None,
                },
            decreases names.len() - k,
        {
            if at.is_none() && names[k].id == id {
                at = Some(k);
            }
            k += 1;
        }
        proof {
            assert(lists::views(before)[i as int] == before[i as int]@);
        }
        if let Some(m) = at {
            let mut e: ElementSpec = els[i].copied();
            e.name = names[m].name.to_string();
            els.set(i, e);
        }
        i += 1;
    }
    proof {
        assert(lists::views(els@) =~= want);
    }
}

/// A part gets the first name that there is for it, and nothing else of it changes; a part
/// without one stays as it is.
pub proof fn law_a_part_gets_its_own_name(doc: Seq<Part>, names: Seq<Legend>, i: int)
    requires
        0 <= i < doc.len(),
    ensures
        labelled(doc, names).len() == doc.len(),
        ({
            let (p, q) = (doc[i], labelled(doc, names)[i]);
            &&& q.id == p.id && q.kind == p.kind && q.pins == p.pins && q.tier == p.tier && q.rot == p.rot
            &&& {
                ||| {
                    &&& q.name == p.name
                    &&& forall|k: int| 0 <= k < names.len() ==> (#[trigger] names[k]).id != p.id
                }
                ||| exists|k: int|
                    0 <= k < names.len() && (#[trigger] names[k]).id == p.id && q.name == names[k].name@
                        && forall|j: int| 0 <= j < k ==> (#[trigger] names[j]).id != p.id
            }
        }),
{
    lemma_first_legend(names, doc[i].id, names.len() as int);
}

proof fn lemma_first_legend(names: Seq<Legend>, id: u32, n: int)
    requires
        0 <= n <= names.len(),
    ensures
        match legend_for(names, id, n) {
            Some(s) => exists|k: int|
                0 <= k < n && (#[trigger] names[k]).id == id && s == names[k].name@ && forall|j: int|
                    0 <= j < k ==> (#[trigger] names[j]).id != id,
            None => forall|k: int| 0 <= k < n ==> (#[trigger] names[k]).id != id,
        },
    decreases n,
{
    if n > 0 {
        lemma_first_legend(names, id, n - 1);
        if legend_for(names, id, n - 1) is None && names[n - 1].id == id {
            assert(names[n - 1].id == id);
        }
    }
}

/// A heading has its corners and its name.
pub proof fn law_a_heading_has_its_corners(x0: i32, y0: i32, x1: i32, y1: i32, name: &'static str)
    ensures
        ({
            let h = heading(x0 as int, y0 as int, x1 as int, y1 as int, name);
            h.x0 == x0 && h.y0 == y0 && h.x1 == x1 && h.y1 == y1 && h.name == name
        }),
{
}

} // verus!
