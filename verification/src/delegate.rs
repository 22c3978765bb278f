//! An actor that does one thing: it spawns a child when it starts, and starts only
//! where that succeeds.

use crate::datum::{
    datum_view, datum_views, error_detail, error_full, found, plain_config, plain_config_string,
    result_in, result_of, unit_result, Datum, DatumView,
};
use vstd::prelude::*;

verus! {

/// The child that is spawned, where none is named.
pub const CHILD: &'static str = "https://raw.githubusercontent.com/colinrozzi/supervisor/main/experiments/noop/manifest.toml";

/// The text in a configuration value, inside however many options and first
/// places of tuples.
pub open spec fn deep_text(v: DatumView) -> Option<Seq<char>>
    decreases v,
{
    match v {
        DatumView::Tuple(items) => if items.len() > 0 {
            deep_text(items[0])
        } else {
            None
        },
        DatumView::Opt(Some(b)) => deep_text(*b),
        _ => plain_config(v),
    }
}

/// The text in a configuration value.
fn deep_string(v: &Datum) -> (r: Option<String>)
    ensures
        found(r) == deep_text(v@),
    decreases v,
{
    proof {
        reveal_with_fuel(datum_view, 3);
        reveal_with_fuel(datum_views, 3);
    }
    match v {
        Datum::Tuple(items) => {
            if items.len() > 0 {
                deep_string(&items[0])
            } else {
                None
            }
        },
        Datum::Opt(Some(b)) => deep_string(b),
        _ => plain_config_string(v),
    }
}

/// The child to spawn: the one that the configuration names, or the default.
pub open spec fn child_in(v: DatumView) -> Seq<char> {
    match deep_text(v) {
        Some(s) => if s.len() > 0 {
            s
        } else {
            CHILD@
        },
        None => CHILD@,
    }
}

/// The child to spawn.
pub fn config_child(v: &Datum) -> (r: String)
    ensures
        r@ == child_in(v@),
{
    match deep_string(v) {
        Some(s) => if s.as_str().unicode_len() > 0 {
            s
        } else {
            CHILD.to_owned()
        },
        None => CHILD.to_owned(),
    }
}

/// Whether the actor starts, by the host's answer to the spawn.
pub open spec fn started(v: DatumView) -> Result<(), Seq<char>> {
    match result_in(v) {
        Some(Ok(_)) => Ok(()),
        Some(Err(e)) => Err("delegation failed: "@ + error_full(e)),
        None => match v {
            DatumView::Text(_) => Ok(()),
            _ => Err("unexpected spawn result"@),
        },
    }
}

/// Whether the actor starts, by the host's answer to the spawn.
pub fn start_result(v: &Datum) -> (r: Result<(), String>)
    ensures
        unit_result(r) == started(v@),
{
    match result_of(v) {
        Some(Ok(_)) => Ok(()),
        Some(Err(e)) => {
            let mut out = "delegation failed: ".to_owned();
            out.append(error_detail(e).as_str());
            Err(out)
        },
        None => match v {
            Datum::Text(_) => Ok(()),
            _ => Err("unexpected spawn result".to_owned()),
        },
    }
}

/// The child is the one that the configuration names, wrapped or not; where it names
/// none, or an empty text, it is the default.
pub proof fn the_named_child_is_spawned(v: DatumView, rest: Seq<DatumView>, s: Seq<char>)
    ensures
        s.len() > 0 ==> child_in(DatumView::Text(s)) == s,
        s.len() == 0 ==> child_in(DatumView::Text(s)) == CHILD@,
        child_in(DatumView::Opt(None)) == CHILD@,
        child_in(DatumView::Opt(Some(Box::new(v)))) == child_in(v),
        child_in(DatumView::Tuple(seq![v] + rest)) == child_in(v),
        child_in(DatumView::Tuple(Seq::empty())) == CHILD@,
{
    assert((seq![v] + rest)[0] == v);
}

/// The actor starts just where the spawn succeeded, and says why where it failed.
pub proof fn no_child_no_start(payload: DatumView, id: Seq<char>, why: Seq<char>)
    ensures
        started(DatumView::Res(Ok(Box::new(payload)))) is Ok,
        started(DatumView::Text(id)) is Ok,
        started(DatumView::Res(Err(Box::new(payload)))) is Err,
        started(DatumView::Res(Err(Box::new(DatumView::Text(why))))) == Err::<(), Seq<char>>(
            "delegation failed: "@ + why,
        ),
{
}

/// A failure is told by its name, and with its detail where it has one.
pub proof fn a_failed_delegation_is_told_in_full(
    case_name: Seq<char>,
    tag: usize,
    detail: Seq<char>,
    other: DatumView,
)
    requires
        !(other is Text),
    ensures
        started(
            DatumView::Res(
                Err(
                    Box::new(
                        DatumView::Variant { case_name, tag, payload: seq![DatumView::Text(detail)] },
                    ),
                ),
            ),
        ) == Err::<(), Seq<char>>("delegation failed: "@ + (case_name + ": "@ + detail)),
        started(
            DatumView::Res(
                Err(Box::new(DatumView::Variant { case_name, tag, payload: Seq::empty() })),
            ),
        ) == Err::<(), Seq<char>>("delegation failed: "@ + case_name),
        started(
            DatumView::Res(
                Err(Box::new(DatumView::Variant { case_name, tag, payload: seq![other] })),
            ),
        ) == Err::<(), Seq<char>>("delegation failed: "@ + case_name),
{
}

} // verus!
