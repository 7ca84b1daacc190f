//! Parsing of the `#[app]` module and of the arguments of its attributes,
//! on token trees

pub mod actor;
pub mod app;
pub mod args;
pub mod cursor;
pub mod func;
pub mod item;

use vstd::prelude::*;

use crate::ast::{keys_unique, map_view, App, AppArgs, AppV};
use crate::error::{error_at, res_view, ErrV, Error, ErrorKind};
use crate::parse::app::{
    app_spec, distinct_names, empty_state, items_step, late_split, law_items_distinct, parse_app,
};
use crate::parse::args::{app_args_spec, entry_names};
use crate::parse::item::{item_texts, items_of, read_items};
use crate::stream::{
    all_lits_known, check_items, items_error, lits_known, module_parts, split_module, stream_trees,
    tokens_of,
};
use crate::tokens::TokV;
use crate::Settings;

verus! {

/// What the `#[app]` attribute's arguments (`args`) and its module
/// (`input`) parse into, before any check: the arguments, then the module's
/// shape, then whether its body holds only literals that `syn` knows, then
/// whether `syn` reads its body as items, then the items
pub open spec fn parsed(args: Seq<TokV>, input: Seq<TokV>, settings: Settings) -> Result<AppV, ErrV> {
    match app_args_spec(args) {
        Err(e) => Err(e),
        Ok(a) => match module_parts(input) {
            Err(e) => Err(e),
            Ok((name, body)) => if !lits_known(body) {
                Err((ErrorKind::UnsupportedLiteral, Seq::empty()))
            } else {
                match items_error(body) {
                    Some(m) => Err((ErrorKind::Syntax, m)),
                    None => match items_of(body) {
                        Err(e) => Err(e),
                        Ok(items) => app_spec(settings, a, name, items, item_texts(body)),
                    },
                }
            },
        },
    }
}

proof fn lemma_keys_unique<T: View>(m: Seq<(String, T)>)
    requires
        distinct_names(map_view(m)),
    ensures
        keys_unique(m),
{
    assert forall|i: int, j: int| 0 <= i < j < m.len() implies m[i].0@ != m[j].0@ by {
        assert(map_view(m)[i].0 == m[i].0@);
        assert(map_view(m)[j].0 == m[j].0@);
    }
}

/// Parses the app: `args` are the tokens of the `#[app(..)]` attribute's
/// arguments, `input` those of the module it is placed on. The names of the
/// resources, and of the tasks, come out distinct; there is one `init`
/// function; the late resources are the shared ones and the local ones.
pub fn app(args: proc_macro2::TokenStream, input: proc_macro2::TokenStream, settings: &Settings) -> (r: Result<
    App,
    Error,
>)
    ensures
        res_view(r) == parsed(stream_trees(args), stream_trees(input), *settings),
        r matches Ok(a) ==> {
            &&& keys_unique(a.late_resources@)
            &&& keys_unique(a.resources@)
            &&& keys_unique(a.hardware_tasks@)
            &&& keys_unique(a.software_tasks@)
            &&& a@.inits.len() == 1
            &&& keys_unique(a.shared_resources@)
            &&& keys_unique(a.local_resources@)
            &&& late_split(
                a@.late_resources,
                entry_names(a@.shared_resources),
                entry_names(a@.local_resources),
            )
        },
{
    let app_args = match AppArgs::parse(args) {
        Err(e) => return Err(e),
        Ok(a) => a,
    };
    let (name, body) = match split_module(&input) {
        Err(e) => return Err(e),
        Ok(v) => v,
    };
    let toks = tokens_of(&body);
    if !all_lits_known(&toks) {
        return Err(crate::error::error_here(ErrorKind::UnsupportedLiteral));
    }
    match check_items(&body) {
        Some(m) => return Err(Error { kind: ErrorKind::Syntax, at: m }),
        None => {},
    }
    let (items, texts) = match read_items(&toks) {
        Err(e) => return Err(e),
        Ok(v) => v,
    };
    let ghost iv = crate::parse::item::items_view(items@);
    let ghost tx = crate::parse::item::toks_seq_view(texts@);
    let r = parse_app(settings, app_args, name, items, &texts);
    proof {
        law_items_distinct(*settings, empty_state(), iv, tx, 0);
        if r is Ok {
            let a = r->Ok_0;
            lemma_keys_unique(a.late_resources@);
            lemma_keys_unique(a.shared_resources@);
            lemma_keys_unique(a.local_resources@);
            lemma_keys_unique(a.resources@);
            lemma_keys_unique(a.hardware_tasks@);
            lemma_keys_unique(a.software_tasks@);
        }
    }
    r
}

} // verus!
