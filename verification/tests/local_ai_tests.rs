use edison_note::ai::WritingStyle;
use edison_note::local_ai::LocalAI;

fn clarity_by_std(content: &str, style: &WritingStyle) -> String {
    let mut improved = content.to_string();
    match style {
        WritingStyle::Formal => {
            improved = improved.replace("don't", "do not");
            improved = improved.replace("can't", "cannot");
            improved = improved.replace("won't", "will not");
            improved = improved.replace("I think", "It appears that");
            improved = improved.replace("maybe", "perhaps");
        }
        WritingStyle::Casual => {
            improved = improved.replace("It is important to note", "Note that");
            improved = improved.replace("Furthermore", "Also");
            improved = improved.replace("However", "But");
        }
        WritingStyle::Technical => {
            improved = improved.replace("thing", "component");
            improved = improved.replace("stuff", "elements");
            improved = improved.replace("good", "effective");
            improved = improved.replace("bad", "inefficient");
        }
    }
    improved = improved.replace("very good", "excellent");
    improved = improved.replace("very bad", "poor");
    improved = improved.replace("a lot of", "many");
    improved = improved.replace("kind of", "somewhat");
    improved
}

fn grammar_by_std(content: &str) -> String {
    let mut fixed = content.to_string();
    fixed = fixed.replace(" i ", " I ");
    fixed = fixed.replace(" i'", " I'");
    fixed = fixed.replace("it's", "its");
    fixed = fixed.replace("your welcome", "you're welcome");
    fixed = fixed.replace("there ", "their ");
    fixed = fixed.replace("  ", " ");
    fixed = fixed.replace(" .", ".");
    fixed = fixed.replace(" ,", ",");
    fixed = fixed.replace(" !", "!");
    fixed = fixed.replace(" ?", "?");
    let mut result = String::new();
    let mut capitalize_next = true;
    for ch in fixed.chars() {
        if capitalize_next && ch.is_alphabetic() {
            result.push(ch.to_uppercase().next().unwrap_or(ch));
            capitalize_next = false;
        } else {
            result.push(ch);
            if ch == '.' || ch == '!' || ch == '?' {
                capitalize_next = true;
            }
        }
    }
    result
}

const SAMPLES: [&str; 12] = [
    "",
    "I think we don't know; maybe we can't, and won't.",
    "It is important to note this. Furthermore, that. However, no.",
    "a thing and stuff: good, bad, very good, very bad, a lot of, kind of",
    "nothingness of goodbye and badge",
    "i think i 'll say it's fine , there you go !  your welcome .",
    "     many   spaces     here  .  and there  ?",
    "\u{e9}t\u{e9}. \u{df}traf! \u{1c6}ur? 1. a",
    "no end",
    "...!!!???",
    "very very good very bad bad",
    "dondon't't can'can'tt",
];

#[test]
fn local_ai_is_available_and_named() {
    let ai = LocalAI::new();
    assert!(ai.is_available());
    assert_eq!(ai.get_name(), "Local AI (Private)");
    assert_eq!(LocalAI::get_available_memory(), 4_000_000_000);
}

#[test]
fn improve_clarity_rewrites_by_style() {
    let ai = LocalAI::new();
    assert_eq!(
        ai.improve_clarity("I think we don't have a lot of time, maybe", &WritingStyle::Formal),
        "It appears that we do not have many time, perhaps"
    );
    assert_eq!(
        ai.improve_clarity("However, it is kind of very good", &WritingStyle::Casual),
        "But, it is somewhat excellent"
    );
    assert_eq!(
        ai.improve_clarity("a very good thing, bad stuff", &WritingStyle::Technical),
        "a very effective component, inefficient elements"
    );
}

#[test]
fn improve_clarity_agrees_with_std_replace() {
    let ai = LocalAI::new();
    for style in [WritingStyle::Formal, WritingStyle::Casual, WritingStyle::Technical] {
        for sample in SAMPLES {
            assert_eq!(ai.improve_clarity(sample, &style), clarity_by_std(sample, &style));
        }
    }
}

#[test]
fn fix_grammar_mends_and_capitalizes() {
    let ai = LocalAI::new();
    assert_eq!(
        ai.fix_grammar("hello there friend.  i think it's ok , yes ! and you ?"),
        "Hello their friend. I think its ok, yes! And you?"
    );
    assert_eq!(ai.fix_grammar("\u{e9}cole. \u{df}"), "\u{c9}cole. S");
}

#[test]
fn fix_grammar_agrees_with_std() {
    let ai = LocalAI::new();
    for sample in SAMPLES {
        assert_eq!(ai.fix_grammar(sample), grammar_by_std(sample));
    }
}

fn structure_by_std(content: &str) -> String {
    let lines: Vec<&str> = content.lines().collect();
    if lines.is_empty() {
        return content.to_string();
    }
    let mut structured = Vec::new();
    let mut in_list = false;
    for (i, line) in lines.iter().enumerate() {
        let trimmed = line.trim();
        if i == 0 && !trimmed.starts_with('#') && !trimmed.is_empty() {
            structured.push(format!("# {}", trimmed));
            continue;
        }
        if trimmed.contains(" and ") || trimmed.contains(" or ") || trimmed.contains(",") {
            if !in_list && !trimmed.starts_with('-') && !trimmed.starts_with('*') {
                let items: Vec<&str> = trimmed.split(&[',', ';'][..]).collect();
                if items.len() > 1 {
                    for item in items {
                        let clean_item = item.trim();
                        if !clean_item.is_empty() {
                            structured.push(format!("- {}", clean_item));
                        }
                    }
                    in_list = true;
                    continue;
                }
            }
        } else {
            in_list = false;
        }
        if trimmed.len() > 50 && !trimmed.starts_with('#') && !trimmed.starts_with('-') {
            if i > 0 && !lines[i - 1].trim().is_empty() {
                structured.push("".to_string());
            }
            structured.push(format!("## {}", trimmed));
        } else {
            structured.push(line.to_string());
        }
    }
    structured.join("\n")
}

const TEXTS: [&str; 16] = [
    "",
    "\n",
    "\n\n",
    "Title",
    "# Title\nplain",
    "  my note  \napples, pears; plums and more\nnext, one\nplain\nagain, a list",
    "first\r\nsecond, third\r\n\r\nlast\r",
    "one\n\nthis line is certainly longer than fifty bytes, is it not? yes it is\nshort",
    "one\nthis line is certainly longer than fifty bytes but without the mark of a list\nshort\nthis other line is also much longer than fifty bytes in all that it says",
    "t\n- already, a list item that goes on for more than fifty bytes of text here\n* star, item",
    "t\nsalt and pepper\nthis or that\n,\n;\na;b",
    "t\n\u{e9}\u{e9}\u{e9}\u{e9}\u{e9}\u{e9}\u{e9}\u{e9}\u{e9}\u{e9}\u{e9}\u{e9}\u{e9}\u{e9}\u{e9}\u{e9}\u{e9}\u{e9}\u{e9}\u{e9}\u{e9}\u{e9}\u{e9}\u{e9}\u{e9}\u{e9}\nxxxxxxxxxxxxxxxxxxxxxxxxxxxxxxxxxxxxxxxxxxxxxxxxxx\nxxxxxxxxxxxxxxxxxxxxxxxxxxxxxxxxxxxxxxxxxxxxxxxxxxy",
    "   \nindented , list ,, ; \n  ",
    "#\n# , \n## and or",
    "a\rb\nc\r\r\nd",
    "x\n\u{a0}padded, with\u{2003}spaces \u{3000}\n",
];

#[test]
fn improve_structure_adds_title_lists_and_headings() {
    let ai = LocalAI::new();
    assert_eq!(
        ai.improve_structure("shopping\nmilk, eggs; bread\nthe end"),
        "# shopping\n- milk\n- eggs\n- bread\nthe end"
    );
    assert_eq!(
        ai.improve_structure(
            "t\nabcdefghijklmnopqrstuvwxyzabcdefghijklmnopqrstuvwxyz\n\nabcdefghijklmnopqrstuvwxyzabcdefghijklmnopqrstuvwxyz"
        ),
        "# t\n\n## abcdefghijklmnopqrstuvwxyzabcdefghijklmnopqrstuvwxyz\n\n## abcdefghijklmnopqrstuvwxyzabcdefghijklmnopqrstuvwxyz"
    );
    assert_eq!(ai.improve_structure(""), "");
    assert_eq!(ai.improve_structure("\n"), "");
}

#[test]
fn improve_structure_agrees_with_std() {
    let ai = LocalAI::new();
    for text in TEXTS {
        assert_eq!(ai.improve_structure(text), structure_by_std(text), "{:?}", text);
    }
    for sample in SAMPLES {
        assert_eq!(ai.improve_structure(sample), structure_by_std(sample), "{:?}", sample);
    }
}

fn summary_by_std(content: &str) -> String {
    let sentences: Vec<&str> = content
        .split(&['.', '!', '?'][..])
        .map(|s| s.trim())
        .filter(|s| !s.is_empty() && s.len() > 10)
        .collect();
    if sentences.is_empty() {
        return "Brief note content.".to_string();
    }
    let mut summary_parts = Vec::new();
    if let Some(first_sentence) = sentences.first() {
        summary_parts.push(first_sentence.to_string());
    }
    for sentence in &sentences[1..] {
        if sentence.to_lowercase().contains("important")
            || sentence.to_lowercase().contains("key")
            || sentence.to_lowercase().contains("main")
            || sentence.to_lowercase().contains("summary")
        {
            summary_parts.push(sentence.to_string());
            break;
        }
    }
    let summary = summary_parts.join(". ");
    if summary.len() > 200 {
        format!("{}...", &summary[..200])
    } else {
        summary
    }
}

#[test]
fn create_summary_takes_the_first_and_a_weighty_sentence() {
    let ai = LocalAI::new();
    assert_eq!(ai.create_summary(""), "Brief note content.");
    assert_eq!(ai.create_summary("Too short. Tiny! No?"), "Brief note content.");
    assert_eq!(
        ai.create_summary(
            "This note is about gardening. It rains a lot in spring. The MAIN point is to water less! Another Important thing."
        ),
        "This note is about gardening. The MAIN point is to water less"
    );
    assert_eq!(
        ai.create_summary("Only one real sentence here. ok. fine."),
        "Only one real sentence here"
    );
    assert_eq!(
        ai.create_summary("The KEY is first but it does not count twice? nothing else follows here."),
        "The KEY is first but it does not count twice"
    );
}

#[test]
fn create_summary_cuts_long_summaries() {
    let ai = LocalAI::new();
    let long = "x".repeat(250);
    assert_eq!(ai.create_summary(&long), format!("{}...", "x".repeat(200)));
    let exact = "y".repeat(200);
    assert_eq!(ai.create_summary(&exact), exact);
    let text = format!("{}. and this one is the summary of it all, {}", "a".repeat(150), "b".repeat(100));
    assert_eq!(ai.create_summary(&text), summary_by_std(&text));
    assert_eq!(ai.create_summary(&text).len(), 203);
    // Two-byte characters: 100 of them fill the 200 bytes.
    let wide = "\u{e9}".repeat(120);
    assert_eq!(ai.create_summary(&wide), format!("{}...", "\u{e9}".repeat(100)));
    // A character that would straddle the limit is left out.
    let odd = format!("a{}", "\u{e9}".repeat(120));
    assert_eq!(ai.create_summary(&odd), format!("a{}...", "\u{e9}".repeat(99)));
}

#[test]
fn create_summary_agrees_with_std() {
    let ai = LocalAI::new();
    let more = [
        "First sentence of the note. second one is short. The KEYnote was long enough! rest",
        "  spaced out sentence one here  .   \n the summary of this long story is short ?? ",
        "\u{130}MPORTANT is not important in lower case, or is it. \u{130}mportant things come later on",
        "No stop at all but more than ten bytes",
        "1234567890. 12345678901. main. the main thing",
        "\u{e9}\u{e9}\u{e9}\u{e9}\u{e9}\u{e9}. abcdefghij. abcdefghijk",
    ];
    for text in more {
        assert_eq!(ai.create_summary(text), summary_by_std(text), "{:?}", text);
    }
    for text in TEXTS {
        assert_eq!(ai.create_summary(text), summary_by_std(text), "{:?}", text);
    }
    for sample in SAMPLES {
        assert_eq!(ai.create_summary(sample), summary_by_std(sample), "{:?}", sample);
    }
}

fn tags_by_std(content: &str) -> Vec<String> {
    let content_lower = content.to_lowercase();
    let mut tags = Vec::new();
    let tag_keywords = [
        ("meeting", "#meeting"),
        ("project", "#project"),
        ("task", "#task"),
        ("goal", "#goal"),
        ("idea", "#idea"),
        ("research", "#research"),
        ("planning", "#planning"),
        ("development", "#development"),
        ("design", "#design"),
        ("testing", "#testing"),
        ("bug", "#bug"),
        ("feature", "#feature"),
        ("documentation", "#docs"),
        ("review", "#review"),
        ("personal", "#personal"),
        ("work", "#work"),
        ("urgent", "#urgent"),
        ("important", "#important"),
    ];
    for (keyword, tag) in &tag_keywords {
        if content_lower.contains(keyword) {
            tags.push(tag.to_string());
        }
    }
    if content.contains("```") {
        tags.push("#code".to_string());
    }
    if content.contains("http") {
        tags.push("#link".to_string());
    }
    if content.contains("TODO") || content.contains("FIXME") {
        tags.push("#todo".to_string());
    }
    let word_count = content.split_whitespace().count();
    if word_count > 100 {
        tags.push("#long-form".to_string());
    }
    if content.lines().count() > 10 {
        tags.push("#detailed".to_string());
    }
    tags.dedup();
    tags.truncate(6);
    tags
}

#[test]
fn generate_tags_finds_words_and_marks() {
    let mut ai = LocalAI::new();
    assert_eq!(
        ai.generate_tags("Meeting about the PROJECT plan, see http://x and TODO list"),
        vec!["#meeting", "#project", "#link", "#todo"]
    );
    assert_eq!(ai.generate_tags("nothing to see"), Vec::<String>::new());
    assert_eq!(
        ai.generate_tags("meeting project task goal idea research planning design"),
        vec!["#meeting", "#project", "#task", "#goal", "#idea", "#research"]
    );
    assert_eq!(ai.generate_tags("```code```"), vec!["#code"]);
    let many_words = "w ".repeat(101);
    assert_eq!(ai.generate_tags(&many_words), vec!["#long-form"]);
    let hundred_words = "w\t".repeat(100);
    assert_eq!(ai.generate_tags(&hundred_words), Vec::<String>::new());
    let many_lines = "l\n".repeat(11);
    assert_eq!(ai.generate_tags(&many_lines), vec!["#detailed"]);
    let ten_lines = "l\n".repeat(10);
    assert_eq!(ai.generate_tags(&ten_lines), Vec::<String>::new());
}

#[test]
fn generate_tags_agrees_with_std_and_with_itself() {
    let mut ai = LocalAI::new();
    let more = [
        "A bug in the feature: documentation and review are urgent and important work",
        "Personal Development, TESTING; FIXME",
        " \u{a0}one\u{2003}two \n three\r\nfour ",
    ];
    for round in 0..2 {
        for text in more.iter().chain(TEXTS.iter()).chain(SAMPLES.iter()) {
            assert_eq!(ai.generate_tags(text), tags_by_std(text), "{:?} in round {}", text, round);
        }
    }
}
