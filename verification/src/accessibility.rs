//! Keyboard navigation: which element of the window has the focus.

use vstd::prelude::*;

verus! {

/// A keyboard shortcut and what it does.
#[derive(Debug, Clone)]
pub struct KeyboardShortcut {
    pub key: &'static str,
    pub description: &'static str,
    pub action: &'static str,
}

/// The elements that can take the focus, in the order in which the tab key
/// walks them.
pub open spec fn focusable_names() -> Seq<Seq<char>> {
    seq![
        "search_box"@,
        "new_note_btn"@,
        "notes_list"@,
        "editor"@,
        "save_btn"@,
        "enhance_btn"@,
        "settings_btn"@,
    ]
}

/// Place of the first name equal to `name`, or the number of names where
/// there is none.
pub open spec fn first_named(names: Seq<Seq<char>>, name: Seq<char>) -> int
    decreases names.len(),
{
    if names.len() == 0 {
        0
    } else if names[0] == name {
        0
    } else {
        1 + first_named(names.drop_first(), name)
    }
}

/// The place after `current` on the way forward, going round at the end.
pub open spec fn next_place(current: Option<usize>, count: int) -> int
    recommends
        count > 0,
{
    match current {
        Some(i) => (i + 1) % count,
        None => 0,
    }
}

/// The place before `current` on the way back, going round at the start.
pub open spec fn previous_place(current: Option<usize>, count: int) -> int
    recommends
        count > 0,
{
    match current {
        Some(i) => if i == 0 {
            count - 1
        } else {
            i - 1
        },
        None => count - 1,
    }
}

/// A focus manager as a mathematical value.
pub struct FocusView {
    pub elements: Seq<Seq<char>>,
    pub current_focus: Option<usize>,
}

/// Keeps track of the element that has the keyboard focus.
pub struct FocusManager {
    focusable_elements: Vec<String>,
    current_focus: Option<usize>,
}

spec fn names_of(elements: Seq<String>) -> Seq<Seq<char>> {
    Seq::new(elements.len(), |i: int| elements[i]@)
}

impl View for FocusManager {
    type V = FocusView;

    closed spec fn view(&self) -> FocusView {
        FocusView { elements: names_of(self.focusable_elements@), current_focus: self.current_focus }
    }
}

impl FocusManager {
    /// The focus, if any, is on one of the elements.
    pub open spec fn wf(&self) -> bool {
        match self@.current_focus {
            Some(i) => i < self@.elements.len(),
            None => true,
        }
    }

    /// A manager for the elements of the main window, with the focus nowhere.
    pub fn new() -> (manager: Self)
        ensures
            manager.wf(),
            manager@ == (FocusView { elements: focusable_names(), current_focus: None }),
    {
        let mut elements: Vec<String> = Vec::new();
        elements.push("search_box".to_owned());
        elements.push("new_note_btn".to_owned());
        elements.push("notes_list".to_owned());
        elements.push("editor".to_owned());
        elements.push("save_btn".to_owned());
        elements.push("enhance_btn".to_owned());
        elements.push("settings_btn".to_owned());
        let manager = FocusManager { focusable_elements: elements, current_focus: None };
        assert(manager@.elements =~= focusable_names());
        manager
    }

    /// Moves the focus to the next element, to the first one after the last
    /// or from nowhere, and names it. Without elements there is no focus.
    pub fn next_focus(&mut self) -> (name: Option<String>)
        requires
            old(self).wf(),
        ensures
            final(self).wf(),
            final(self)@.elements == old(self)@.elements,
            old(self)@.elements.len() == 0 ==> name is None && final(self)@ == old(self)@,
            old(self)@.elements.len() > 0 ==> {
                let next = next_place(old(self)@.current_focus, old(self)@.elements.len() as int);
                &&& final(self)@.current_focus == Some(next as usize)
                &&& name is Some
                &&& name->0@ == old(self)@.elements[next]
            },
    {
        if self.focusable_elements.len() == 0 {
            return None;
        }
        let next_index: usize = match self.current_focus {
            Some(current) => (current + 1) % self.focusable_elements.len(),
            None => 0,
        };
        self.current_focus = Some(next_index);
        Some(self.focusable_elements[next_index].clone())
    }

    /// Moves the focus to the element before, to the last one before the
    /// first or from nowhere, and names it. Without elements there is no focus.
    pub fn previous_focus(&mut self) -> (name: Option<String>)
        requires
            old(self).wf(),
        ensures
            final(self).wf(),
            final(self)@.elements == old(self)@.elements,
            old(self)@.elements.len() == 0 ==> name is None && final(self)@ == old(self)@,
            old(self)@.elements.len() > 0 ==> {
                let previous = previous_place(
                    old(self)@.current_focus,
                    old(self)@.elements.len() as int,
                );
                &&& final(self)@.current_focus == Some(previous as usize)
                &&& name is Some
                &&& name->0@ == old(self)@.elements[previous]
            },
    {
        if self.focusable_elements.len() == 0 {
            return None;
        }
        let prev_index: usize = match self.current_focus {
            Some(current) => {
                if current == 0 {
                    self.focusable_elements.len() - 1
                } else {
                    current - 1
                }
            },
            None => self.focusable_elements.len() - 1,
        };
        self.current_focus = Some(prev_index);
        Some(self.focusable_elements[prev_index].clone())
    }

    /// Puts the focus on the first element of this name and says whether
    /// there is one. Where there is none the focus stays.
    pub fn set_focus(&mut self, element: &str) -> (found: bool)
        requires
            old(self).wf(),
        ensures
            final(self).wf(),
            final(self)@.elements == old(self)@.elements,
            found == (first_named(old(self)@.elements, element@) < old(self)@.elements.len()),
            found ==> final(self)@.current_focus == Some(
                first_named(old(self)@.elements, element@) as usize,
            ),
            !found ==> final(self)@.current_focus == old(self)@.current_focus,
    {
        let wanted = element.to_owned();
        let ghost all = self@.elements;
        let mut i: usize = 0;
        assert(all.skip(0) =~= all);
        while i < self.focusable_elements.len()
            invariant
                i <= self.focusable_elements.len(),
                wanted@ == element@,
                all == self@.elements,
                *self == *old(self),
                first_named(all, element@) == i + first_named(all.skip(i as int), element@),
            decreases self.focusable_elements.len() - i,
        {
            proof {
                assert(all.skip(i as int)[0] == self.focusable_elements[i as int]@);
                assert(all.skip(i as int).drop_first() =~= all.skip(i + 1));
            }
            if self.focusable_elements[i] == wanted {
                self.current_focus = Some(i);
                return true;
            }
            i = i + 1;
        }
        assert(all.skip(i as int) =~= Seq::<Seq<char>>::empty());
        false
    }

    /// The name of the element that has the focus, if one has.
    pub fn get_current_focus(&self) -> (name: Option<&String>)
        requires
            self.wf(),
        ensures
            match name {
                Some(n) => self@.current_focus is Some && n@ == self@.elements[self@.current_focus->0 as int],
                None => self@.current_focus is None,
            },
    {
        match self.current_focus {
            Some(index) => Some(&self.focusable_elements[index]),
            None => None,
        }
    }
}

} // verus!
