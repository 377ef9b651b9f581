//! The dashboard core: a log highlighter beside a selectable list of
//! available actions, each with its own independently navigable
//! selection cursor. Everything around it (terminal setup, key-event
//! routing, rendering) is external collaborator infrastructure.

use vstd::prelude::*;
use vstd::string::*;

use crate::highlight::LogHighlighter;
use crate::selectable_list::SelectableList;
use crate::style::{string_views, SegModel};

verus! {

/// The core state of the dashboard component.
pub struct Home {
    /// The streamed log lines and their styled cache.
    pub highlighter: LogHighlighter,
    /// The static action labels, populated once at construction.
    pub available_actions: SelectableList<String>,
}

impl Home {
    /// Both components are well-formed.
    pub open spec fn wf(self) -> bool {
        &&& self.highlighter.wf()
        &&& self.available_actions.wf()
    }

    /// Creates the dashboard core: an empty log and the default actions,
    /// with nothing selected in either list.
    pub fn new() -> (r: Self)
        ensures
            r.wf(),
            r.highlighter.raw_view() =~= Seq::<Seq<char>>::empty(),
            r.highlighter.styled_model() =~= Seq::<Seq<SegModel>>::empty(),
            r.highlighter.selected_index() is None,
            string_views(r.available_actions@) =~= seq!["Action 1"@, "Action 2"@, "Action 3"@],
            r.available_actions.selected_index() is None,
    {
        let empty = Home {
            highlighter: LogHighlighter::new(),
            available_actions: SelectableList::new(),
        };
        empty.set_default_actions()
    }

    /// Recomputes the highlighter's styled cache from its raw buffer;
    /// the action list is untouched.
    pub fn highlight_io(&mut self)
        requires
            old(self).highlighter.log_wf(),
        ensures
            final(self).highlighter.wf(),
            final(self).highlighter.raw_view() == old(self).highlighter.raw_view(),
            final(self).highlighter.selected_index() == old(self).highlighter.selected_index(),
            final(self).available_actions == old(self).available_actions,
    {
        self.highlighter.highlight_io();
    }

    /// Replaces the available actions with the default action labels;
    /// the highlighter is untouched.
    pub fn set_default_actions(self) -> (r: Self)
        ensures
            r.highlighter == self.highlighter,
            string_views(r.available_actions@) =~= seq!["Action 1"@, "Action 2"@, "Action 3"@],
            r.available_actions.selected_index() is None,
            r.available_actions.wf(),
    {
        let mut items: Vec<String> = Vec::new();
        items.push("Action 1".to_owned());
        items.push("Action 2".to_owned());
        items.push("Action 3".to_owned());
        Home {
            highlighter: self.highlighter,
            available_actions: SelectableList::with_items(items),
        }
    }
}

} // verus!
