//! The interactive workspace-creation flow, re-cast as an explicit state
//! machine over form fields (name, then repeated tab entries, then a
//! continuation answer), driven one input line at a time so that both an
//! interactive terminal and a scripted harness can run it.

use vstd::prelude::*;

use crate::model::{Tab, TabV, Workspace, WorkspaceV};
use crate::text::{eq_ci, eq_ignore_case, split_words, split_words_spec, trim, trim_spec};

verus! {

/// Which answer the form waits for next.
#[derive(Debug, Clone, Copy, PartialEq, Eq, Structural)]
pub enum FormStep {
    Name,
    TabTitle,
    TabDirectory,
    TabCommands,
    TabSplit,
    Another,
    Done,
}

/// The workspace-creation form: the answers gathered so far and the step
/// the next input line belongs to.
pub struct WorkspaceForm {
    pub step: FormStep,
    pub name: String,
    pub tabs: Vec<Tab>,
    pub cur_title: String,
    pub cur_directory: String,
    pub cur_commands: String,
}

/// The mathematical value of a [`WorkspaceForm`].
#[verifier::ext_equal]
pub struct FormV {
    pub step: FormStep,
    pub name: Seq<char>,
    pub tabs: Seq<TabV>,
    pub cur_title: Seq<char>,
    pub cur_directory: Seq<char>,
    pub cur_commands: Seq<char>,
}

impl View for WorkspaceForm {
    type V = FormV;

    open spec fn view(&self) -> FormV {
        FormV {
            step: self.step,
            name: self.name@,
            tabs: self.tabs.deep_view(),
            cur_title: self.cur_title@,
            cur_directory: self.cur_directory@,
            cur_commands: self.cur_commands@,
        }
    }
}

/// An affirmative answer: the trimmed line is `y`, in either case.
pub open spec fn yes(s: Seq<char>) -> bool {
    eq_ci(s, "y"@)
}

/// The tab one round of answers creates: an empty title means no title,
/// the commands line is split at spaces, and the split-pane answer is kept
/// explicitly.
pub open spec fn tab_of_entries(
    title: Seq<char>,
    directory: Seq<char>,
    commands: Seq<char>,
    split: bool,
) -> TabV {
    TabV {
        title: if title.len() == 0 {
            None
        } else {
            Some(title)
        },
        starting_directory: directory,
        commands: Some(split_words_spec(commands)),
        split_pane: Some(split),
    }
}

/// One input line's transition of the form: each step trims the line,
/// stores the answer and moves on; the split-pane answer completes a tab;
/// the continuation answer either starts the next tab or finishes.
pub open spec fn form_step_spec(f: FormV, line: Seq<char>) -> FormV {
    let t = trim_spec(line);
    match f.step {
        FormStep::Name => FormV { step: FormStep::TabTitle, name: t, ..f },
        FormStep::TabTitle => FormV { step: FormStep::TabDirectory, cur_title: t, ..f },
        FormStep::TabDirectory => FormV { step: FormStep::TabCommands, cur_directory: t, ..f },
        FormStep::TabCommands => FormV { step: FormStep::TabSplit, cur_commands: t, ..f },
        FormStep::TabSplit => FormV {
            step: FormStep::Another,
            tabs: f.tabs.push(
                tab_of_entries(f.cur_title, f.cur_directory, f.cur_commands, yes(t)),
            ),
            ..f
        },
        FormStep::Another => if yes(t) {
            FormV { step: FormStep::TabTitle, ..f }
        } else {
            FormV { step: FormStep::Done, ..f }
        },
        FormStep::Done => f,
    }
}

impl WorkspaceForm {
    /// A fresh form, waiting for the workspace name.
    pub fn new() -> (f: Self)
        ensures
            f@ == (FormV {
                step: FormStep::Name,
                name: Seq::empty(),
                tabs: Seq::empty(),
                cur_title: Seq::empty(),
                cur_directory: Seq::empty(),
                cur_commands: Seq::empty(),
            }),
    {
        let f = WorkspaceForm {
            step: FormStep::Name,
            name: String::new(),
            tabs: Vec::new(),
            cur_title: String::new(),
            cur_directory: String::new(),
            cur_commands: String::new(),
        };
        proof {
            assert(f@.tabs =~~= Seq::<TabV>::empty());
        }
        f
    }

    /// Feeds one input line to the form.
    pub fn input(&mut self, line: &str)
        ensures
            final(self)@ == form_step_spec(old(self)@, line@),
    {
        let t = trim(line).to_owned();
        match self.step {
            FormStep::Name => {
                self.name = t;
                self.step = FormStep::TabTitle;
                proof {
                    assert(self@ =~~= form_step_spec(old(self)@, line@));
                }
            },
            FormStep::TabTitle => {
                self.cur_title = t;
                self.step = FormStep::TabDirectory;
                proof {
                    assert(self@ =~~= form_step_spec(old(self)@, line@));
                }
            },
            FormStep::TabDirectory => {
                self.cur_directory = t;
                self.step = FormStep::TabCommands;
                proof {
                    assert(self@ =~~= form_step_spec(old(self)@, line@));
                }
            },
            FormStep::TabCommands => {
                self.cur_commands = t;
                self.step = FormStep::TabSplit;
                proof {
                    assert(self@ =~~= form_step_spec(old(self)@, line@));
                }
            },
            FormStep::TabSplit => {
                let split = eq_ignore_case(t.as_str(), "y");
                let title = if self.cur_title.as_str().is_empty() {
                    None
                } else {
                    Some(self.cur_title.clone())
                };
                let commands = split_words(self.cur_commands.as_str());
                let tab = Tab {
                    title,
                    starting_directory: self.cur_directory.clone(),
                    commands: Some(commands),
                    split_pane: Some(split),
                };
                proof {
                    assert(tab@ =~~= tab_of_entries(
                        old(self)@.cur_title,
                        old(self)@.cur_directory,
                        old(self)@.cur_commands,
                        yes(trim_spec(line@)),
                    ));
                }
                let ghost prev = self.tabs.deep_view();
                self.tabs.push(tab);
                self.step = FormStep::Another;
                proof {
                    assert(self.tabs.deep_view() =~~= prev.push(tab@));
                    assert(self@ =~~= form_step_spec(old(self)@, line@));
                }
            },
            FormStep::Another => {
                if eq_ignore_case(t.as_str(), "y") {
                    self.step = FormStep::TabTitle;
                } else {
                    self.step = FormStep::Done;
                }
                proof {
                    assert(self@ =~~= form_step_spec(old(self)@, line@));
                }
            },
            FormStep::Done => {
                proof {
                    assert(self@ =~~= form_step_spec(old(self)@, line@));
                }
            },
        }
    }

    /// The workspace the completed form creates: a leaf with the entered
    /// name and tabs.
    pub fn finish(self) -> (w: Workspace)
        ensures
            w@ == (WorkspaceV::Leaf { name: self@.name, tabs: self@.tabs }),
    {
        Workspace::Leaf { name: self.name, tabs: self.tabs }
    }
}

} // verus!
