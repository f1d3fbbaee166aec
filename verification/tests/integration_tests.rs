use edison_note::ai::{EnhancementRequest, EnhancementType, Sensitivity, WritingStyle};
use edison_note::manager::CollaborationManager;

struct AccessibilityNode {
    role: String,
    label: String,
    description: String,
}

struct KeyboardShortcut {
    key: String,
    action: String,
    description: String,
}

#[test]
fn test_ai_enhancement_requests() {
    // Test AI request creation
    let request = EnhancementRequest {
        content: "This is a test note that needs improvement".to_string(),
        enhancement_types: vec![
            EnhancementType::Clarity,
            EnhancementType::Structure,
            EnhancementType::Tags,
        ],
        style: WritingStyle::Casual,
        sensitivity: Sensitivity::Medium,
    };
    
    assert_eq!(request.enhancement_types.len(), 3);
    assert_eq!(request.style, WritingStyle::Casual);
    assert_eq!(request.sensitivity, Sensitivity::Medium);
    
    // Test enhancement type validation
    assert!(request.enhancement_types.contains(&EnhancementType::Clarity));
    assert!(request.enhancement_types.contains(&EnhancementType::Structure));
    assert!(request.enhancement_types.contains(&EnhancementType::Tags));
    assert!(!request.enhancement_types.contains(&EnhancementType::Grammar));
    
    println!("âœ… AI enhancement request tests passed");
}

#[test]
fn integration_tests_test_collaboration_manager() {
    // Test collaboration manager initialization
    let manager = CollaborationManager::new(
        "ws://localhost:8080".to_string(),
        "test_user_123".to_string(),
        "Test User".to_string(),
    );
    
    assert_eq!(manager.user_id(), "test_user_123");
    assert_eq!(manager.user_name(), "Test User");
    
    // Test session management (without actual WebSocket connection)
    let session_info = manager.get_session_info("nonexistent_note");
    assert!(session_info.is_none(), "Should return None for non-existent session");
    
    println!("âœ… Collaboration manager tests passed");
}

#[test]
fn test_markdown_processing() {
    let markdown_content = "# Title\n\nThis is **bold** and *italic* text.\n\n- List item 1\n- List item 2";
    
    // Test that markdown content is properly structured
    assert!(markdown_content.contains("# Title"));
    assert!(markdown_content.contains("**bold**"));
    assert!(markdown_content.contains("*italic*"));
    assert!(markdown_content.contains("- List"));
    
    // Test word count
    let word_count = markdown_content.split_whitespace().count();
    assert!(word_count > 0, "Should have words");
    
    println!("âœ… Markdown processing tests passed");
}

#[test]
fn test_accessibility_features() {
    // Test accessibility structure validation
    let toolbar_button = AccessibilityNode {
        role: "button".to_string(),
        label: "New Note".to_string(),
        description: "Create a new note (Ctrl+N)".to_string(),
    };
    
    assert_eq!(toolbar_button.role, "button");
    assert!(!toolbar_button.label.is_empty());
    assert!(!toolbar_button.description.is_empty());
    assert!(toolbar_button.description.contains("Ctrl+N"));
    
    let enhance_button = AccessibilityNode {
        role: "button".to_string(),
        label: "Enhance with AI".to_string(),
        description: "Improve note with AI assistance (Ctrl+E)".to_string(),
    };
    
    assert_eq!(enhance_button.label, "Enhance with AI");
    assert!(enhance_button.description.contains("Ctrl+E"));
    
    println!("âœ… Accessibility features tests passed");
}

#[test]
fn test_keyboard_shortcuts() {
    // Test keyboard shortcut definitions
    let shortcuts = vec![
        KeyboardShortcut {
            key: "Ctrl+N".to_string(),
            action: "new_note".to_string(),
            description: "Create new note".to_string(),
        },
        KeyboardShortcut {
            key: "Ctrl+S".to_string(),
            action: "save_note".to_string(),
            description: "Save current note".to_string(),
        },
        KeyboardShortcut {
            key: "Ctrl+E".to_string(),
            action: "enhance".to_string(),
            description: "Enhance note with AI".to_string(),
        },
        KeyboardShortcut {
            key: "Ctrl+F".to_string(),
            action: "search".to_string(),
            description: "Search notes".to_string(),
        },
    ];
    
    assert_eq!(shortcuts.len(), 4);
    assert!(shortcuts.iter().any(|s| s.key == "Ctrl+N"));
    assert!(shortcuts.iter().any(|s| s.action == "enhance"));
    
    println!("âœ… Keyboard shortcuts tests passed");
}
