//! State of the window: the view that is shown, the enhancement dialogue,
//! the editor and the two sidebars.

use vstd::prelude::*;

verus! {

/// The view that fills the main part of the window.
#[derive(Debug, Clone, Copy, PartialEq, Eq, Structural)]
pub enum AppView {
    Editor,
    GraphView,
    Settings,
}

/// State of the dialogue in which a note is enhanced.
#[derive(Debug, Clone)]
pub struct EnhanceModalState {
    pub is_open: bool,
    pub clarity_enabled: bool,
    pub structure_enabled: bool,
    pub tags_enabled: bool,
    pub summarize_enabled: bool,
    pub grammar_enabled: bool,
    pub preview_enabled: bool,
    pub original_content: String,
    pub preview_content: String,
    pub is_processing: bool,
    pub show_undo: bool,
    pub custom_prompt: String,
}

impl Default for EnhanceModalState {
    /// The closed dialogue: clarity and structure are asked for, nothing
    /// else, and all texts are empty.
    fn default() -> (state: Self)
        ensures
            !state.is_open,
            state.clarity_enabled,
            state.structure_enabled,
            !state.tags_enabled,
            !state.summarize_enabled,
            !state.grammar_enabled,
            !state.preview_enabled,
            state.original_content@ == Seq::<char>::empty(),
            state.preview_content@ == Seq::<char>::empty(),
            !state.is_processing,
            !state.show_undo,
            state.custom_prompt@ == Seq::<char>::empty(),
    {
        EnhanceModalState {
            is_open: false,
            clarity_enabled: true,
            structure_enabled: true,
            tags_enabled: false,
            summarize_enabled: false,
            grammar_enabled: false,
            preview_enabled: false,
            original_content: String::new(),
            preview_content: String::new(),
            is_processing: false,
            show_undo: false,
            custom_prompt: String::new(),
        }
    }
}

/// State of the editor of a note.
#[derive(Debug)]
pub struct MarkdownEditor {
    pub content: String,
    pub is_preview_mode: bool,
    pub cursor_position: usize,
}

impl MarkdownEditor {
    /// An empty editor in edit mode, with the caret at the start.
    pub fn new() -> (editor: Self)
        ensures
            editor.content@ == Seq::<char>::empty(),
            !editor.is_preview_mode,
            editor.cursor_position == 0,
    {
        MarkdownEditor { content: String::new(), is_preview_mode: false, cursor_position: 0 }
    }
}

/// State of the sidebar with the notes, folders and tags.
#[derive(Debug)]
pub struct LeftSidebar {
    pub search_query: String,
    pub selected_folder: Option<String>,
    pub selected_tag: Option<String>,
}

impl LeftSidebar {
    /// A sidebar with no query and nothing selected.
    pub fn new() -> (sidebar: Self)
        ensures
            sidebar.search_query@ == Seq::<char>::empty(),
            sidebar.selected_folder is None,
            sidebar.selected_tag is None,
    {
        LeftSidebar { search_query: String::new(), selected_folder: None, selected_tag: None }
    }
}

/// A tab of the sidebar with the details of a note.
#[derive(Debug, Clone, Copy, PartialEq, Eq, Structural)]
pub enum RightSidebarTab {
    Metadata,
    Backlinks,
    Outline,
    History,
}

/// State of the sidebar with the details of a note.
#[derive(Debug)]
pub struct RightSidebar {
    pub active_tab: RightSidebarTab,
}

impl RightSidebar {
    /// A sidebar that shows the metadata.
    pub fn new() -> (sidebar: Self)
        ensures
            sidebar.active_tab == RightSidebarTab::Metadata,
    {
        RightSidebar { active_tab: RightSidebarTab::Metadata }
    }
}

} // verus!
