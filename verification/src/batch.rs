use vstd::prelude::*;
use std::sync::Arc;
use crate::color::HUE_STEPS;
use crate::errors::ItemError;
use crate::pipeline::{render_image, rendered_output};
use crate::random::sample_hue;
use crate::scene::svg_parse_ok;

verus! {

/// The index of the last dot that can split a file name into stem and
/// extension: the rightmost dot at index 1 or later. A leading dot (a hidden
/// file) does not count as a split point.
pub open spec fn last_dot(name: Seq<u8>) -> Option<int>
    decreases name.len(),
{
    if name.len() <= 1 {
        None
    } else if name[name.len() - 1] == 46 {
        Some(name.len() - 1)
    } else {
        last_dot(name.take(name.len() - 1))
    }
}

/// The stem of a file name: everything before the last splitting dot, or the
/// whole name when there is none.
pub open spec fn stem_of(name: Seq<u8>) -> Seq<u8> {
    match last_dot(name) {
        Some(i) => name.take(i),
        None => name,
    }
}

/// The bytes of the output extension ".png".
pub open spec fn png_suffix() -> Seq<u8> {
    seq![46u8, 112u8, 110u8, 103u8]
}

/// The derived output file name: the input's stem followed by ".png".
pub open spec fn png_name(name: Seq<u8>) -> Seq<u8> {
    stem_of(name) + png_suffix()
}

/// When the suffix from `i` onward holds no dot, the last splitting dot of
/// the whole name is the last splitting dot of the prefix before `i`.
proof fn lemma_last_dot_ignores_dotless_suffix(name: Seq<u8>, i: int)
    requires
        1 <= i <= name.len(),
        forall|j: int| i <= j < name.len() ==> name[j] != 46,
    ensures
        last_dot(name) == last_dot(name.take(i)),
    decreases name.len() - i,
{
    if i == name.len() {
        assert(name.take(i) =~= name);
    } else {
        assert(name[name.len() - 1] != 46);
        let shorter = name.take(name.len() - 1);
        assert(forall|j: int| i <= j < shorter.len() ==> shorter[j] != 46);
        lemma_last_dot_ignores_dotless_suffix(shorter, i);
        assert(shorter.take(i) =~= name.take(i));
    }
}

/// Derives the output file name `<stem>.png` from an input file name, as
/// plain bytes. Returns None exactly when the input name is empty, the one
/// case with no discernible stem.
pub fn output_name(name: &Vec<u8>) -> (r: Option<Vec<u8>>)
    ensures
        match r {
            Some(out) => name@.len() > 0 && out@ == png_name(name@),
            None => name@.len() == 0,
        },
{
    if name.len() == 0 {
        return None;
    }
    let mut i: usize = name.len();
    while i > 1 && name[i - 1] != 46
        invariant
            1 <= i <= name@.len(),
            name@.len() > 0,
            forall|j: int| i as int <= j < name@.len() ==> name@[j] != 46,
        decreases i,
    {
        i = i - 1;
    }
    let stem_end: usize;
    if i > 1 {
        stem_end = i - 1;
        proof {
            lemma_last_dot_ignores_dotless_suffix(name@, i as int);
            assert(name@.take(i as int)[i as int - 1] == 46);
            assert(last_dot(name@) == Some(i as int - 1));
            assert(name@.take(i as int).take(i as int - 1) =~= name@.take(i as int - 1));
            assert(stem_of(name@) == name@.take(stem_end as int));
        }
    } else {
        stem_end = name.len();
        proof {
            lemma_last_dot_ignores_dotless_suffix(name@, 1);
            assert(name@.take(1).len() <= 1);
            assert(last_dot(name@) is None);
            assert(name@.take(stem_end as int) =~= name@);
            assert(stem_of(name@) == name@);
        }
    }
    let mut out: Vec<u8> = Vec::new();
    let mut k: usize = 0;
    while k < stem_end
        invariant
            k <= stem_end,
            stem_end as int <= name@.len(),
            out@ == name@.take(k as int),
        decreases stem_end - k,
    {
        let b = name[k];
        out.push(b);
        proof {
            assert(name@.take(k as int + 1) =~= name@.take(k as int).push(name@[k as int]));
        }
        k = k + 1;
    }
    out.push(46);
    out.push(112);
    out.push(110);
    out.push(103);
    proof {
        assert(out@ =~= name@.take(stem_end as int) + png_suffix());
        assert(out@ == png_name(name@));
    }
    Some(out)
}

/// One input item of a batch: its file name and its raw bytes, both read by
/// the caller.
pub struct BatchItem {
    pub name: Vec<u8>,
    pub data: Vec<u8>,
}

/// What became of one batch item: either an output image under its derived
/// name, or an isolated failure to report.
pub enum Outcome {
    Rendered { name: Vec<u8>, png: Vec<u8> },
    Failed { error: ItemError },
}

/// The per-item contract of the batch driver: a rendered outcome carries the
/// derived `<stem>.png` name and a PNG produced by the pipeline for the
/// item's hue draw; a failed outcome carries an error that truthfully
/// classifies the item (no stem, unparsable bytes, or a resource failure on
/// an otherwise valid item).
pub open spec fn outcome_ok(item: BatchItem, hue: u32, out: Outcome) -> bool {
    match out {
        Outcome::Rendered { name, png } => {
            &&& item.name@.len() > 0
            &&& name@ == png_name(item.name@)
            &&& svg_parse_ok(item.data@)
            &&& rendered_output(png@, hue)
        },
        Outcome::Failed { error } => match error {
            ItemError::Name => item.name@.len() == 0,
            ItemError::Parse(_) => item.name@.len() > 0 && !svg_parse_ok(item.data@),
            ItemError::Render => item.name@.len() > 0 && svg_parse_ok(item.data@),
            ItemError::Encode => item.name@.len() > 0 && svg_parse_ok(item.data@),
            _ => false,
        },
    }
}

/// Processes one batch item with one hue draw: derives the output name and
/// runs the rendering pipeline, packaging failure instead of propagating it.
pub fn process_item(item: &BatchItem, hue: u32, fonts: &Arc<resvg::usvg::fontdb::Database>) -> (out:
    Outcome)
    requires
        hue < HUE_STEPS,
    ensures
        outcome_ok(*item, hue, out),
{
    let name = match output_name(&item.name) {
        Some(n) => n,
        None => {
            return Outcome::Failed { error: ItemError::Name };
        },
    };
    match render_image(&item.data, hue, fonts) {
        Ok(png) => Outcome::Rendered { name, png },
        Err(error) => Outcome::Failed { error },
    }
}

/// Batch Driver, deterministic form: processes the items in order, one given
/// hue draw per item, and returns one outcome per item in the same order.
/// A failure of one item never disturbs the others.
pub fn run_batch_with_hues(
    items: &Vec<BatchItem>,
    hues: &Vec<u32>,
    fonts: &Arc<resvg::usvg::fontdb::Database>,
) -> (outcomes: Vec<Outcome>)
    requires
        hues@.len() == items@.len(),
        forall|i: int| 0 <= i < hues@.len() ==> hues@[i] < HUE_STEPS,
    ensures
        outcomes@.len() == items@.len(),
        forall|i: int|
            0 <= i < items@.len() ==> outcome_ok(items@[i], hues@[i], #[trigger] outcomes@[i]),
{
    let mut outcomes: Vec<Outcome> = Vec::new();
    let mut idx: usize = 0;
    while idx < items.len()
        invariant
            idx as int <= items@.len(),
            hues@.len() == items@.len(),
            forall|i: int| 0 <= i < hues@.len() ==> hues@[i] < HUE_STEPS,
            outcomes@.len() == idx as int,
            forall|i: int|
                0 <= i < idx as int ==> outcome_ok(items@[i], hues@[i], #[trigger] outcomes@[i]),
        decreases items@.len() - idx as int,
    {
        let out = process_item(&items[idx], hues[idx], fonts);
        outcomes.push(out);
        idx = idx + 1;
    }
    outcomes
}

/// The per-item contract of the batch driver when the hue came from a random
/// draw: the outcome is right for some hue within a full turn.
pub open spec fn outcome_ok_some_hue(item: BatchItem, out: Outcome) -> bool {
    exists|h: u32| h < HUE_STEPS && outcome_ok(item, h, out)
}

/// Batch Driver: processes the items in order, drawing one fresh hue from the
/// shared random source per item. Each outcome satisfies the per-item
/// contract for some hue below HUE_STEPS; failures are isolated per item.
pub fn run_batch(
    items: &Vec<BatchItem>,
    rng: &mut rand::rngs::ThreadRng,
    fonts: &Arc<resvg::usvg::fontdb::Database>,
) -> (outcomes: Vec<Outcome>)
    ensures
        outcomes@.len() == items@.len(),
        forall|i: int|
            0 <= i < items@.len() ==> outcome_ok_some_hue(items@[i], #[trigger] outcomes@[i]),
{
    let mut outcomes: Vec<Outcome> = Vec::new();
    let mut idx: usize = 0;
    while idx < items.len()
        invariant
            idx as int <= items@.len(),
            outcomes@.len() == idx as int,
            forall|i: int|
                0 <= i < idx as int ==> outcome_ok_some_hue(items@[i], #[trigger] outcomes@[i]),
        decreases items@.len() - idx as int,
    {
        let hue = sample_hue(rng);
        let out = process_item(&items[idx], hue, fonts);
        proof {
            assert(outcome_ok_some_hue(items@[idx as int], out)) by {
                assert(hue < HUE_STEPS && outcome_ok(items@[idx as int], hue, out));
            }
        }
        outcomes.push(out);
        idx = idx + 1;
    }
    outcomes
}

} // verus!
