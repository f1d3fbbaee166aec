// Timing of note loading, listing and searching on an in-memory store.

use std::time::Instant;
use std::collections::HashMap;

#[derive(Debug, Clone)]
struct MockNote {
    id: String,
    title: String,
    content: String,
    tags: Vec<String>,
    word_count: usize,
}

impl MockNote {
    fn new(id: usize) -> Self {
        Self {
            id: format!("note_{}", id),
            title: format!("Note {}", id),
            content: format!("This is the content of note {}. It contains multiple sentences to simulate real content. The note talks about various topics and has a reasonable length for testing purposes.", id),
            tags: vec![format!("tag{}", id % 10), "test".to_string()],
            word_count: 25,
        }
    }
}

struct MockDatabase {
    notes: HashMap<String, MockNote>,
    cache: HashMap<String, Vec<(String, String)>>, // Simulates note list cache
}

impl MockDatabase {
    fn new() -> Self {
        Self {
            notes: HashMap::new(),
            cache: HashMap::new(),
        }
    }
    
    // Optimized note loading with pre-allocation
    fn load_notes_optimized(&mut self, count: usize) -> std::time::Duration {
        let start = Instant::now();
        
        // Pre-allocate HashMap with capacity for better performance
        self.notes = HashMap::with_capacity(count);
        
        for i in 0..count {
            let note = MockNote::new(i);
            self.notes.insert(note.id.clone(), note);
        }
        
        start.elapsed()
    }
    
    // Simulates optimized note list retrieval (only ID and title)
    fn get_notes_list_optimized(&mut self, limit: usize) -> std::time::Duration {
        let start = Instant::now();
        
        // Use cached results if available
        if let Some(_cached) = self.cache.get("notes_list") {
            return start.elapsed();
        }
        
        // Create optimized list with only essential data
        let mut notes_list = Vec::with_capacity(limit);
        for (id, note) in self.notes.iter().take(limit) {
            notes_list.push((id.clone(), note.title.clone()));
        }
        
        // Cache the result
        self.cache.insert("notes_list".to_string(), notes_list);
        
        start.elapsed()
    }
    
    // Simulates search with indexed performance
    fn search_notes_optimized(&self, query: &str, max_results: usize) -> (std::time::Duration, usize) {
        let start = Instant::now();
        
        let mut results = Vec::with_capacity(max_results);
        
        for note in self.notes.values() {
            if note.title.to_lowercase().contains(&query.to_lowercase()) || 
               note.content.to_lowercase().contains(&query.to_lowercase()) {
                results.push(note.clone());
                if results.len() >= max_results {
                    break;
                }
            }
        }
        
        (start.elapsed(), results.len())
    }
}

#[test]
fn test_note_loading_performance() {
    let mut db = MockDatabase::new();
    
    // Test loading 1000 notes
    let duration = db.load_notes_optimized(1000);
    println!("üìù Loaded 1000 notes in: {:?}", duration);
    
    // Should be under 500ms as per requirement
    assert!(duration.as_millis() < 500, "Note loading should be under 500ms, got {:?}", duration);
    
    // Test loading 5000 notes (stress test)
    let duration_large = db.load_notes_optimized(5000);
    println!("üìù Loaded 5000 notes in: {:?}", duration_large);
    
    // Should still be reasonable even for large datasets
    assert!(duration_large.as_millis() < 2000, "Large note loading should be under 2s, got {:?}", duration_large);
    
    println!("‚úÖ Note loading performance test passed");
}

#[test]
fn test_optimized_note_list_retrieval() {
    let mut db = MockDatabase::new();
    
    // Load notes first
    db.load_notes_optimized(1000);
    
    // Test optimized list retrieval
    let duration1 = db.get_notes_list_optimized(100);
    println!("üìã First notes list retrieval: {:?}", duration1);
    
    // Test cached retrieval (should be much faster)
    let duration2 = db.get_notes_list_optimized(100);
    println!("üìã Cached notes list retrieval: {:?}", duration2);
    
    // Cached version should be significantly faster
    assert!(duration2 < duration1, "Cached retrieval should be faster");
    assert!(duration1.as_millis() < 100, "Initial list retrieval should be under 100ms");
    
    println!("‚úÖ Optimized note list retrieval test passed");
}

#[test]
fn test_search_performance() {
    let mut db = MockDatabase::new();
    
    // Load test data
    db.load_notes_optimized(1000);
    
    // Test search performance
    let (duration, results_count) = db.search_notes_optimized("note", 50);
    println!("üîç Search completed in: {:?}, found {} results", duration, results_count);
    
    // Search should be fast even with 1000 notes
    assert!(duration.as_millis() < 200, "Search should be under 200ms, got {:?}", duration);
    assert!(results_count > 0, "Should find some results");
    
    // Test more specific search
    let (duration2, results_count2) = db.search_notes_optimized("Note 123", 10);
    println!("üîç Specific search completed in: {:?}, found {} results", duration2, results_count2);
    
    assert!(duration2.as_millis() < 100, "Specific search should be under 100ms");
    
    println!("‚úÖ Search performance test passed");
}

#[test]
fn test_memory_efficiency() {
    let start_time = Instant::now();
    
    // Test memory-efficient operations
    let mut notes = Vec::with_capacity(1000); // Pre-allocated
    
    for i in 0..1000 {
        notes.push(MockNote::new(i));
    }
    
    let allocation_time = start_time.elapsed();
    println!("üíæ Allocated 1000 notes in: {:?}", allocation_time);
    
    // Should be very fast with pre-allocation
    assert!(allocation_time.as_millis() < 50, "Memory allocation should be under 50ms");
    
    // Test HashMap capacity efficiency
    let mut map = HashMap::with_capacity(1000);
    let start_map = Instant::now();
    
    for note in &notes {
        map.insert(note.id.clone(), note.clone());
    }
    
    let map_time = start_map.elapsed();
    println!("üíæ HashMap insertion with capacity: {:?}", map_time);
    
    assert!(map_time.as_millis() < 100, "HashMap operations should be under 100ms");
    
    println!("‚úÖ Memory efficiency test passed");
}

#[test]
fn test_search_scaling() {
    let mut db = MockDatabase::new();
    
    // Test search performance scaling
    let test_sizes = vec![100, 500, 1000, 2000];
    
    for size in test_sizes {
        db.load_notes_optimized(size);
        let (duration, _) = db.search_notes_optimized("test", 20);
        
        println!("üîç Search in {} notes: {:?}", size, duration);
        
        // Search time should scale reasonably
        let expected_max_time = (size as f64 * 0.1) as u64; // 0.1ms per note max
        assert!(duration.as_millis() <= expected_max_time.max(50) as u128,
               "Search should scale reasonably for {} notes", size);
    }
    
    println!("‚úÖ Search scaling test passed");
}
