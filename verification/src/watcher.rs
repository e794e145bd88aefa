//! What one file event does: the registry is brought up to date, and the
//! stylesheet is rendered anew where the active set changed.

use vstd::prelude::*;
use crate::data_manager::{
    active_names, remove_class_maps, remove_deltas, update_class_maps, update_deltas, Registry,
};
use crate::engine::{computes, text_of, Numbers, StyleEngine};
use crate::class_set::in_order;
use crate::generator::{generate_css, renders, stylesheet_of};
use crate::parser::{parse_classnames, parsed_classes, Parsed};

verus! {

/// What an event changed: the four counts of the registry, and the new text
/// of the stylesheet where it has to be written.
#[derive(Debug)]
pub struct FileChange {
    /// Names the file gained.
    pub added_in_file: usize,
    /// Names the file lost.
    pub removed_in_file: usize,
    /// Names that entered the active set.
    pub added_in_global: usize,
    /// Names that left the active set.
    pub removed_in_global: usize,
    /// The stylesheet to write; none where the active set stayed as it was.
    pub stylesheet: Option<String>,
}

/// The stylesheet an event leaves to write: that of the active names where
/// the active set changed, else none.
pub open spec fn stylesheet_due(
    changed: bool,
    engine: &StyleEngine,
    registry: &Registry,
    numbers: Numbers,
) -> Option<Seq<char>> {
    if changed {
        Some(stylesheet_of(engine.styles(), engine.rules(), active_names(registry@), numbers))
    } else {
        None
    }
}

/// Handles a created or changed file: the class names of its parse replace
/// those the registry held for `path`, and where the active set changed the
/// stylesheet is rendered anew.
pub fn process_file_change<F: Fn(&str, u32) -> Option<String>>(
    path: &str,
    parsed: Option<&Parsed>,
    registry: &mut Registry,
    engine: &StyleEngine,
    scale: &F,
) -> (change: FileChange)
    requires
        old(registry).wf(),
        forall|literal: &str, bits: u32| call_requires(*scale, (literal, bits)),
    ensures
        final(registry).wf(),
        final(registry)@ == old(registry)@.insert(path@, parsed_classes(parsed)),
        (
            change.added_in_file as nat,
            change.removed_in_file as nat,
            change.added_in_global as nat,
            change.removed_in_global as nat,
        ) == update_deltas(old(registry)@, path@, parsed_classes(parsed)),
        change.stylesheet is Some <==> (change.added_in_global > 0 || change.removed_in_global > 0),
        change.stylesheet matches Some(text) ==> renders(
            scale,
            engine.styles(),
            engine.rules(),
            in_order(active_names(final(registry)@)),
            text@,
        ),
        forall|numbers: Numbers| #[trigger]
            computes(scale, numbers) ==> text_of(change.stylesheet) == stylesheet_due(
                change.added_in_global > 0 || change.removed_in_global > 0,
                engine,
                final(registry),
                numbers,
            ),
{
    let new_classnames = parse_classnames(parsed);
    let delta = update_class_maps(path, &new_classnames, registry);
    let stylesheet = if delta.2 > 0 || delta.3 > 0 {
        Some(generate_css(registry.active(), engine, scale))
    } else {
        None
    };
    FileChange {
        added_in_file: delta.0,
        removed_in_file: delta.1,
        added_in_global: delta.2,
        removed_in_global: delta.3,
        stylesheet,
    }
}

/// Handles a removed file: the registry stops tracking `path`, and where
/// names left the active set the stylesheet is rendered anew. A path that
/// was not tracked changes nothing and gives `None`.
pub fn process_file_remove<F: Fn(&str, u32) -> Option<String>>(
    path: &str,
    registry: &mut Registry,
    engine: &StyleEngine,
    scale: &F,
) -> (change: Option<FileChange>)
    requires
        old(registry).wf(),
        forall|literal: &str, bits: u32| call_requires(*scale, (literal, bits)),
    ensures
        final(registry).wf(),
        final(registry)@ == old(registry)@.remove(path@),
        change is Some <==> old(registry)@.contains_key(path@),
        change matches Some(c) ==> {
            &&& c.added_in_file == 0
            &&& c.added_in_global == 0
            &&& (c.removed_in_file as nat, c.removed_in_global as nat) == remove_deltas(
                old(registry)@,
                path@,
            )
            &&& c.stylesheet is Some <==> c.removed_in_global > 0
            &&& c.stylesheet matches Some(text) ==> renders(
                scale,
                engine.styles(),
                engine.rules(),
                in_order(active_names(final(registry)@)),
                text@,
            )
            &&& forall|numbers: Numbers| #[trigger]
                computes(scale, numbers) ==> text_of(c.stylesheet) == stylesheet_due(
                    c.removed_in_global > 0,
                    engine,
                    final(registry),
                    numbers,
                )
        },
{
    match remove_class_maps(path, registry) {
        Some(delta) => {
            let stylesheet = if delta.1 > 0 {
                Some(generate_css(registry.active(), engine, scale))
            } else {
                None
            };
            Some(
                FileChange {
                    added_in_file: 0,
                    removed_in_file: delta.0,
                    added_in_global: 0,
                    removed_in_global: delta.1,
                    stylesheet,
                },
            )
        },
        None => None,
    }
}

/// Closes the first scan of a tree, after each file found went into the
/// registry: the stylesheet is rendered for the active names, whatever
/// they are, and the report counts the names that the files gained in all
/// and the names that are active now.
pub fn process_scan<F: Fn(&str, u32) -> Option<String>>(
    added_in_files: usize,
    registry: &Registry,
    engine: &StyleEngine,
    scale: &F,
) -> (change: FileChange)
    requires
        registry.wf(),
        forall|literal: &str, bits: u32| call_requires(*scale, (literal, bits)),
    ensures
        change.added_in_file == added_in_files,
        change.removed_in_file == 0,
        change.added_in_global == active_names(registry@).len(),
        change.removed_in_global == 0,
        change.stylesheet matches Some(text) && renders(
            scale,
            engine.styles(),
            engine.rules(),
            in_order(active_names(registry@)),
            text@,
        ),
        forall|numbers: Numbers| #[trigger]
            computes(scale, numbers) ==> text_of(change.stylesheet) == stylesheet_due(
                true,
                engine,
                registry,
                numbers,
            ),
{
    let active = registry.active();
    let stylesheet = generate_css(active, engine, scale);
    FileChange {
        added_in_file: added_in_files,
        removed_in_file: 0,
        added_in_global: active.len(),
        removed_in_global: 0,
        stylesheet: Some(stylesheet),
    }
}

} // verus!
