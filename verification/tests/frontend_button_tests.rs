// Button handlers of the main window, exercised on a stand-in for its state.

use edison_note::ui::{AppView, EnhanceModalState};

#[derive(Debug, Clone)]
struct MockUIState {
    current_view: AppView,
    left_sidebar_open: bool,
    right_sidebar_open: bool,
    settings_open: bool,
    show_enhance_modal: bool,
    show_collaboration_panel: bool,
    current_note_id: Option<String>,
    word_count: usize,
    sync_status: String,
    search_query: String,
    // Enhanced AI Modal State
    enhance_modal: EnhanceModalState,
    // Theme state
    theme: String,
    custom_colors_enabled: bool,
    accent_color: [f32; 3],
}

impl Default for MockUIState {
    fn default() -> Self {
        Self {
            current_view: AppView::Editor,
            left_sidebar_open: true,
            right_sidebar_open: true,
            settings_open: false,
            show_enhance_modal: false,
            show_collaboration_panel: false,
            current_note_id: None,
            word_count: 0,
            sync_status: "Ready".to_string(),
            search_query: String::new(),
            enhance_modal: EnhanceModalState::default(),
            theme: "light".to_string(),
            custom_colors_enabled: false,
            accent_color: [0.0, 0.8, 0.416], // Community Green
        }
    }
}

// Button action handlers
impl MockUIState {
    // Toolbar buttons
    fn handle_new_note_button(&mut self) -> String {
        self.current_note_id = Some("new_note_123".to_string());
        self.word_count = 0;
        "New note created".to_string()
    }
    
    fn handle_save_button(&mut self) -> String {
        if self.current_note_id.is_some() {
            "Note saved successfully".to_string()
        } else {
            "No note to save".to_string()
        }
    }
    
    fn handle_search_button(&mut self) -> String {
        // Focus search box
        "Search activated".to_string()
    }
    
    fn handle_enhance_button(&mut self) -> String {
        self.show_enhance_modal = true;
        self.enhance_modal.is_open = true;
        if let Some(note_id) = &self.current_note_id {
            self.enhance_modal.custom_prompt = "Sample content for enhancement".to_string();
        }
        "AI Enhancement modal opened".to_string()
    }
    
    fn handle_collaborate_button(&mut self) -> String {
        self.show_collaboration_panel = !self.show_collaboration_panel;
        if self.show_collaboration_panel {
            "Collaboration panel opened".to_string()
        } else {
            "Collaboration panel closed".to_string()
        }
    }
    
    fn handle_settings_button(&mut self) -> String {
        self.current_view = AppView::Settings;
        self.settings_open = true;
        self.right_sidebar_open = true;
        "Settings opened".to_string()
    }
    
    fn handle_sync_button(&mut self) -> String {
        self.sync_status = "Syncing...".to_string();
        // Simulate sync
        self.sync_status = "Sync complete".to_string();
        "Sync initiated".to_string()
    }
    
    fn handle_theme_toggle(&mut self) -> String {
        self.theme = if self.theme == "light" { "dark".to_string() } else { "light".to_string() };
        format!("Theme changed to {}", self.theme)
    }
    
    // View buttons
    fn handle_editor_view_button(&mut self) -> String {
        self.current_view = AppView::Editor;
        "Switched to Editor view".to_string()
    }
    
    fn handle_graph_view_button(&mut self) -> String {
        self.current_view = AppView::GraphView;
        "Switched to Graph view".to_string()
    }
    
    // Sidebar controls
    fn handle_toggle_left_sidebar(&mut self) -> String {
        self.left_sidebar_open = !self.left_sidebar_open;
        if self.left_sidebar_open {
            "Left sidebar opened".to_string()
        } else {
            "Left sidebar closed".to_string()
        }
    }
    
    fn handle_toggle_right_sidebar(&mut self) -> String {
        self.right_sidebar_open = !self.right_sidebar_open;
        if self.right_sidebar_open {
            "Right sidebar opened".to_string()
        } else {
            "Right sidebar closed".to_string()
        }
    }
    
    // Enhanced AI Modal buttons
    fn handle_enhance_modal_close(&mut self) -> String {
        self.enhance_modal.is_open = false;
        self.show_enhance_modal = false;
        "AI Enhancement modal closed".to_string()
    }
    
    fn handle_enhance_preview_toggle(&mut self) -> String {
        self.enhance_modal.preview_enabled = !self.enhance_modal.preview_enabled;
        if self.enhance_modal.preview_enabled {
            "Real-time preview enabled".to_string()
        } else {
            "Real-time preview disabled".to_string()
        }
    }
    
    fn handle_enhance_process(&mut self) -> String {
        self.enhance_modal.is_processing = true;
        // Simulate AI processing
        self.enhance_modal.is_processing = false;
        self.enhance_modal.show_undo = true;
        "AI enhancement completed".to_string()
    }
    
    fn handle_enhance_apply(&mut self) -> String {
        if let Some(_note_id) = &self.current_note_id {
            self.word_count += 50; // Simulate content increase
            self.enhance_modal.is_open = false;
            self.show_enhance_modal = false;
            "Enhancement applied to note".to_string()
        } else {
            "No note to enhance".to_string()
        }
    }
    
    fn handle_enhance_undo(&mut self) -> String {
        self.enhance_modal.show_undo = false;
        self.word_count = self.word_count.saturating_sub(50);
        "Enhancement undone".to_string()
    }
    
    // Settings panel buttons
    fn handle_custom_colors_toggle(&mut self) -> String {
        self.custom_colors_enabled = !self.custom_colors_enabled;
        if self.custom_colors_enabled {
            "Custom colors enabled".to_string()
        } else {
            "Custom colors disabled".to_string()
        }
    }
    
    fn handle_color_picker(&mut self, new_color: [f32; 3]) -> String {
        self.accent_color = new_color;
        "Accent color updated".to_string()
    }
    
    fn handle_apply_theme(&mut self) -> String {
        "Custom theme applied".to_string()
    }
    
    fn handle_reset_theme(&mut self) -> String {
        self.accent_color = [0.0, 0.8, 0.416]; // Reset to Community Green
        "Theme reset to default".to_string()
    }
    
    // Collaboration panel buttons
    fn handle_start_collaboration(&mut self) -> String {
        "Collaboration session started".to_string()
    }
    
    fn handle_leave_collaboration(&mut self) -> String {
        self.show_collaboration_panel = false;
        "Left collaboration session".to_string()
    }
    
    // Menu bar buttons
    fn handle_import_button(&mut self) -> String {
        "Import dialog opened".to_string()
    }
    
    fn handle_export_button(&mut self) -> String {
        "Export dialog opened".to_string()
    }
    
    fn handle_about_button(&mut self) -> String {
        "About dialog opened".to_string()
    }
}

#[test]
fn test_all_toolbar_buttons() {
    let mut ui_state = MockUIState::default();
    
    // Test New Note button
    let result = ui_state.handle_new_note_button();
    assert_eq!(result, "New note created");
    assert!(ui_state.current_note_id.is_some());
    
    // Test Save button
    let result = ui_state.handle_save_button();
    assert_eq!(result, "Note saved successfully");
    
    // Test Search button
    let result = ui_state.handle_search_button();
    assert_eq!(result, "Search activated");
    
    // Test Enhance button
    let result = ui_state.handle_enhance_button();
    assert_eq!(result, "AI Enhancement modal opened");
    assert!(ui_state.show_enhance_modal);
    assert!(ui_state.enhance_modal.is_open);
    
    // Test Collaborate button
    let result = ui_state.handle_collaborate_button();
    assert_eq!(result, "Collaboration panel opened");
    assert!(ui_state.show_collaboration_panel);
    
    // Test Settings button
    let result = ui_state.handle_settings_button();
    assert_eq!(result, "Settings opened");
    assert_eq!(ui_state.current_view, AppView::Settings);
    assert!(ui_state.settings_open);
    
    // Test Sync button
    let result = ui_state.handle_sync_button();
    assert_eq!(result, "Sync initiated");
    assert_eq!(ui_state.sync_status, "Sync complete");
    
    // Test Theme toggle
    let result = ui_state.handle_theme_toggle();
    assert_eq!(result, "Theme changed to dark");
    assert_eq!(ui_state.theme, "dark");
    
    println!("✅ All toolbar buttons tested successfully");
}

#[test]
fn test_view_navigation_buttons() {
    let mut ui_state = MockUIState::default();
    
    // Test Editor view
    let result = ui_state.handle_editor_view_button();
    assert_eq!(result, "Switched to Editor view");
    assert_eq!(ui_state.current_view, AppView::Editor);
    
    // Test Graph view
    let result = ui_state.handle_graph_view_button();
    assert_eq!(result, "Switched to Graph view");
    assert_eq!(ui_state.current_view, AppView::GraphView);
    
    println!("✅ View navigation buttons tested successfully");
}

#[test]
fn test_sidebar_controls() {
    let mut ui_state = MockUIState::default();
    
    // Test left sidebar toggle
    assert!(ui_state.left_sidebar_open); // Default is open
    let result = ui_state.handle_toggle_left_sidebar();
    assert_eq!(result, "Left sidebar closed");
    assert!(!ui_state.left_sidebar_open);
    
    let result = ui_state.handle_toggle_left_sidebar();
    assert_eq!(result, "Left sidebar opened");
    assert!(ui_state.left_sidebar_open);
    
    // Test right sidebar toggle
    assert!(ui_state.right_sidebar_open); // Default is open
    let result = ui_state.handle_toggle_right_sidebar();
    assert_eq!(result, "Right sidebar closed");
    assert!(!ui_state.right_sidebar_open);
    
    println!("✅ Sidebar controls tested successfully");
}

#[test]
fn test_enhance_modal_buttons() {
    let mut ui_state = MockUIState::default();
    
    // Open enhance modal first
    ui_state.handle_new_note_button();
    ui_state.handle_enhance_button();
    assert!(ui_state.enhance_modal.is_open);
    
    // Test preview toggle
    let result = ui_state.handle_enhance_preview_toggle();
    assert_eq!(result, "Real-time preview enabled");
    assert!(ui_state.enhance_modal.preview_enabled);
    
    // Test enhancement processing
    let result = ui_state.handle_enhance_process();
    assert_eq!(result, "AI enhancement completed");
    assert!(ui_state.enhance_modal.show_undo);
    
    // Test apply enhancement
    let initial_word_count = ui_state.word_count;
    let result = ui_state.handle_enhance_apply();
    assert_eq!(result, "Enhancement applied to note");
    assert!(!ui_state.enhance_modal.is_open);
    assert!(ui_state.word_count > initial_word_count);
    
    // Test undo (need to trigger undo state first)
    ui_state.enhance_modal.show_undo = true;
    let result = ui_state.handle_enhance_undo();
    assert_eq!(result, "Enhancement undone");
    assert!(!ui_state.enhance_modal.show_undo);
    
    println!("✅ Enhance modal buttons tested successfully");
}

#[test]
fn test_settings_panel_buttons() {
    let mut ui_state = MockUIState::default();
    
    // Test custom colors toggle
    let result = ui_state.handle_custom_colors_toggle();
    assert_eq!(result, "Custom colors enabled");
    assert!(ui_state.custom_colors_enabled);
    
    // Test color picker
    let new_color = [1.0, 0.0, 0.0]; // Red
    let result = ui_state.handle_color_picker(new_color);
    assert_eq!(result, "Accent color updated");
    assert_eq!(ui_state.accent_color, new_color);
    
    // Test apply theme
    let result = ui_state.handle_apply_theme();
    assert_eq!(result, "Custom theme applied");
    
    // Test reset theme
    let result = ui_state.handle_reset_theme();
    assert_eq!(result, "Theme reset to default");
    assert_eq!(ui_state.accent_color, [0.0, 0.8, 0.416]);
    
    println!("✅ Settings panel buttons tested successfully");
}

#[test]
fn test_collaboration_panel_buttons() {
    let mut ui_state = MockUIState::default();
    
    // Test start collaboration
    let result = ui_state.handle_start_collaboration();
    assert_eq!(result, "Collaboration session started");
    
    // Test leave collaboration
    ui_state.show_collaboration_panel = true;
    let result = ui_state.handle_leave_collaboration();
    assert_eq!(result, "Left collaboration session");
    assert!(!ui_state.show_collaboration_panel);
    
    println!("✅ Collaboration panel buttons tested successfully");
}

#[test]
fn test_menu_bar_buttons() {
    let mut ui_state = MockUIState::default();
    
    // Test import button
    let result = ui_state.handle_import_button();
    assert_eq!(result, "Import dialog opened");
    
    // Test export button
    let result = ui_state.handle_export_button();
    assert_eq!(result, "Export dialog opened");
    
    // Test about button
    let result = ui_state.handle_about_button();
    assert_eq!(result, "About dialog opened");
    
    println!("✅ Menu bar buttons tested successfully");
}

#[test]
fn test_complex_user_workflows() {
    let mut ui_state = MockUIState::default();
    
    // Workflow 1: Create note and enhance it
    ui_state.handle_new_note_button();
    ui_state.handle_enhance_button();
    ui_state.handle_enhance_preview_toggle();
    ui_state.handle_enhance_process();
    ui_state.handle_enhance_apply();
    
    assert!(ui_state.current_note_id.is_some());
    assert!(!ui_state.enhance_modal.is_open);
    assert!(ui_state.word_count > 0);
    
    // Workflow 2: Switch views and toggle sidebars
    ui_state.handle_graph_view_button();
    ui_state.handle_toggle_left_sidebar();
    ui_state.handle_toggle_right_sidebar();
    
    assert_eq!(ui_state.current_view, AppView::GraphView);
    assert!(!ui_state.left_sidebar_open);
    assert!(!ui_state.right_sidebar_open);
    
    // Workflow 3: Customize theme
    ui_state.handle_settings_button();
    ui_state.handle_custom_colors_toggle();
    ui_state.handle_color_picker([0.2, 0.6, 0.8]);
    ui_state.handle_apply_theme();
    
    assert_eq!(ui_state.current_view, AppView::Settings);
    assert!(ui_state.custom_colors_enabled);
    assert_eq!(ui_state.accent_color, [0.2, 0.6, 0.8]);
    
    // Workflow 4: Start and end collaboration
    ui_state.handle_editor_view_button();
    ui_state.handle_collaborate_button();
    ui_state.handle_start_collaboration();
    ui_state.handle_leave_collaboration();
    
    assert_eq!(ui_state.current_view, AppView::Editor);
    assert!(!ui_state.show_collaboration_panel);
    
    println!("✅ Complex user workflows tested successfully");
}

#[test]
fn test_ui_state_consistency() {
    let mut ui_state = MockUIState::default();
    
    // Test that enhance modal properly manages state
    ui_state.handle_new_note_button();
    ui_state.handle_enhance_button();
    assert!(ui_state.show_enhance_modal);
    assert!(ui_state.enhance_modal.is_open);
    
    ui_state.handle_enhance_modal_close();
    assert!(!ui_state.show_enhance_modal);
    assert!(!ui_state.enhance_modal.is_open);
    
    // Test that settings properly manage view state
    ui_state.handle_settings_button();
    assert_eq!(ui_state.current_view, AppView::Settings);
    assert!(ui_state.settings_open);
    assert!(ui_state.right_sidebar_open);
    
    // Test that collaboration panel state is consistent
    ui_state.handle_collaborate_button();
    assert!(ui_state.show_collaboration_panel);
    
    ui_state.handle_collaborate_button();
    assert!(!ui_state.show_collaboration_panel);
    
    println!("✅ UI state consistency tested successfully");
}
