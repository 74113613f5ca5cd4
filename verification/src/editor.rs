//! The sprite editor's panel: its shortcuts, the panel of the focused
//! tool, and the list of layer entries kept in step with the layers.
use vstd::prelude::*;

verus! {

/// What the editor's shortcuts ask for in a frame.
#[derive(Debug, PartialEq, Eq, Structural, Clone, Copy)]
pub struct ShortcutOutcome {
    /// Close the focused tool and open the type tool.
    pub open_type_tool: bool,
    /// Close the focused tool and open the translate tool.
    pub open_translate_tool: bool,
    /// Whether only the selected layer is shown afterwards.
    pub isolate_selected: bool,
}

/// The editor's shortcuts: unless a tool holds the keyboard, T opens the
/// type tool, G the translate tool, and slash switches between showing
/// every layer and only the selected one.
pub fn editor_shortcuts(
    keyboard_taken: bool,
    pressed_t: bool,
    pressed_g: bool,
    pressed_slash: bool,
    isolate_selected: bool,
) -> (outcome: ShortcutOutcome)
    ensures
        outcome.open_type_tool == (!keyboard_taken && pressed_t),
        outcome.open_translate_tool == (!keyboard_taken && pressed_g),
        outcome.isolate_selected == (if !keyboard_taken && pressed_slash {
            !isolate_selected
        } else {
            isolate_selected
        }),
{
    if keyboard_taken {
        return ShortcutOutcome { open_type_tool: false, open_translate_tool: false, isolate_selected };
    }
    ShortcutOutcome {
        open_type_tool: pressed_t,
        open_translate_tool: pressed_g,
        isolate_selected: if pressed_slash {
            !isolate_selected
        } else {
            isolate_selected
        },
    }
}

/// What happens to the container of the focused tool's panel.
#[derive(Debug, PartialEq, Eq, Structural, Clone, Copy)]
pub enum ToolUiAction {
    Nothing,
    /// Build the focused tool's panel into the empty container.
    Build,
    /// No tool is focused: empty the container.
    Clear,
}

/// The container of the tool panel, where there is one: it gets the
/// focused tool's panel when it is empty, and is emptied when no tool is
/// focused.
pub fn tool_ui_action(has_container: bool, has_focused_tool: bool, container_empty: bool) -> (action: ToolUiAction)
    ensures
        action == (if !has_container {
            ToolUiAction::Nothing
        } else if has_focused_tool {
            if container_empty {
                ToolUiAction::Build
            } else {
                ToolUiAction::Nothing
            }
        } else {
            ToolUiAction::Clear
        }),
{
    if !has_container {
        ToolUiAction::Nothing
    } else if has_focused_tool {
        if container_empty {
            ToolUiAction::Build
        } else {
            ToolUiAction::Nothing
        }
    } else {
        ToolUiAction::Clear
    }
}

/// The entry of `source` in `pairs`, where it has one.
pub open spec fn entry_of(pairs: Seq<(u64, u64)>, source: u64) -> Option<u64> {
    if exists|i: int| 0 <= i < pairs.len() && #[trigger] pairs[i].0 == source {
        Some(pairs[choose|i: int| 0 <= i < pairs.len() && #[trigger] pairs[i].0 == source].1)
    } else {
        None
    }
}

/// No source appears twice in `pairs`.
pub open spec fn sources_distinct(pairs: Seq<(u64, u64)>) -> bool {
    forall|i: int, j: int| 0 <= i < j < pairs.len() ==> #[trigger] pairs[i].0 != #[trigger] pairs[j].0
}

/// The entry of `source` in `pairs`.
fn find_entry(pairs: &Vec<(u64, u64)>, source: u64) -> (found: Option<u64>)
    requires
        sources_distinct(pairs@),
    ensures
        found == entry_of(pairs@, source),
{
    let mut i: usize = 0;
    while i < pairs.len()
        invariant
            sources_distinct(pairs@),
            i <= pairs@.len(),
            forall|k: int| 0 <= k < i ==> #[trigger] pairs@[k].0 != source,
        decreases pairs@.len() - i,
    {
        if pairs[i].0 == source {
            proof {
                assert(pairs@[i as int].0 == source);
                let c = choose|c: int| 0 <= c < pairs@.len() && #[trigger] pairs@[c].0 == source;
                if c != i {
                    if c < i {
                        assert(pairs@[c].0 != source);
                    } else {
                        assert(pairs@[i as int].0 != pairs@[c].0);
                    }
                }
            }
            return Some(pairs[i].1);
        }
        i = i + 1;
    }
    None
}

/// The list of layer entries, first step: for each layer (in order) the
/// entry that already shows it, or `None` where one is to be built.
pub fn reuse_entries(sources: &Vec<u64>, shown: &Vec<(u64, u64)>) -> (entries: Vec<Option<u64>>)
    requires
        sources_distinct(shown@),
    ensures
        entries@.len() == sources@.len(),
        forall|i: int| 0 <= i < sources@.len() ==> #[trigger] entries@[i] == entry_of(shown@, sources@[i]),
{
    let mut entries: Vec<Option<u64>> = Vec::new();
    let mut i: usize = 0;
    while i < sources.len()
        invariant
            sources_distinct(shown@),
            i <= sources@.len(),
            entries@.len() == i,
            forall|k: int| 0 <= k < i ==> #[trigger] entries@[k] == entry_of(shown@, sources@[k]),
        decreases sources@.len() - i,
    {
        entries.push(find_entry(shown, sources[i]));
        i = i + 1;
    }
    entries
}

/// The list of layer entries, second step: of the entries that the list
/// held, those that show no layer any more, in order.
pub fn stale_entries(held: &Vec<u64>, desired: &Vec<u64>) -> (stale: Vec<u64>)
    ensures
        stale@ == held@.filter(|e: u64| !desired@.contains(e)),
{
    let mut stale: Vec<u64> = Vec::new();
    let mut i: usize = 0;
    while i < held.len()
        invariant
            i <= held@.len(),
            stale@ == held@.take(i as int).filter(|e: u64| !desired@.contains(e)),
        decreases held@.len() - i,
    {
        let entry = held[i];
        let mut found = false;
        let mut j: usize = 0;
        while j < desired.len()
            invariant
                j <= desired@.len(),
                found == exists|k: int| 0 <= k < j && desired@[k] == entry,
            decreases desired@.len() - j,
        {
            if desired[j] == entry {
                found = true;
            }
            j = j + 1;
        }
        proof {
            assert(held@.take(i + 1).drop_last() =~= held@.take(i as int));
            reveal(Seq::filter);
            assert(found == desired@.contains(entry));
        }
        if !found {
            stale.push(entry);
        }
        i = i + 1;
    }
    proof {
        assert(held@.take(held@.len() as int) =~= held@);
    }
    stale
}

} // verus!
