//! The interactive problem screen: a stack of modes, a selected problem
//! and a selected edit, and the auto-accept machinery that applies every
//! problem's only edit.  The terminal front end feeds it keys and draws
//! what it computes.

use vstd::prelude::*;

use crate::config_editor::{
    apply_edit, apply_spec, fixes_for_problem, fixes_spec, line_views, ConfigEditor, Edit,
};
use crate::problem::ProblemList;
use crate::problem_store::{dedup_idxs, unresolved_count, ProblemStore};

verus! {

/// The mode stack's elements; `Esc` pops, `q` clears.
#[derive(Clone, Copy, PartialEq, Eq, Structural, Debug)]
pub enum Mode {
    SelectProblem,
    SelectEdit,
    PromptAutoAccept,
    Help,
}

/// The keys the screen reacts to, reduced to what it distinguishes.
#[derive(Clone, Copy, PartialEq, Eq, Structural, Debug)]
pub enum Key {
    Up,
    Down,
    Enter,
    Space,
    Esc,
    CharQ,
    CharA,
    CharH,
    Question,
    Other,
}

pub struct ProblemsUi {
    pub modes: Vec<Mode>,
    pub problem_index: usize,
    pub edit_index: usize,
    pub accept_single_enabled: bool,
    pub config_path: String,
}

/// The configuration after the only edit of every unresolved single-edit
/// problem among the first `i` entries was applied, in order.
pub open spec fn apply_singles(
    es: Seq<crate::problem_store::ProblemStoreEntry>,
    lines: Seq<Seq<char>>,
    i: int,
) -> Seq<Seq<char>>
    decreases i,
{
    if i <= 0 {
        lines
    } else {
        let prev = apply_singles(es, lines, i - 1);
        if !es[i - 1].resolved && fixes_spec(es[i - 1].problem).len() == 1 {
            apply_spec(fixes_spec(es[i - 1].problem)[0], prev)
        } else {
            prev
        }
    }
}

/// The edits available for the `index`-th deduplicated problem.
pub open spec fn edits_at_spec(store: ProblemStore, index: int) -> Seq<Edit> {
    let dd = dedup_idxs(store.entries@, store.entries@.len() as int);
    if 0 <= index < dd.len() {
        fixes_spec(store.entries@[dd[index] as int].problem)
    } else {
        Seq::empty()
    }
}

/// The effect of the auto-accept pass: every unresolved problem whose fix
/// is a single edit ends resolved, nothing else changes its flag, no
/// problem changes, and the configuration is the fold of those edits.
pub open spec fn auto_accept_effect(
    old_store: ProblemStore,
    old_lines: Seq<Seq<char>>,
    new_store: ProblemStore,
    new_lines: Seq<Seq<char>>,
) -> bool {
    &&& new_store.aborted == old_store.aborted
    &&& new_store.entries@.len() == old_store.entries@.len()
    &&& forall|i: int|
        0 <= i < old_store.entries@.len() ==> {
            &&& (#[trigger] new_store.entries@[i]).problem == old_store.entries@[i].problem
            &&& new_store.entries@[i].resolved == (old_store.entries@[i].resolved || fixes_spec(
                old_store.entries@[i].problem,
            ).len() == 1)
        }
    &&& new_lines == apply_singles(
        old_store.entries@,
        old_lines,
        old_store.entries@.len() as int,
    )
}

/// The store entry the deduplicated selection names.
pub open spec fn selected_entry(store: ProblemStore, problem_index: int) -> int {
    dedup_idxs(store.entries@, store.entries@.len() as int)[problem_index] as int
}

/// The effect of applying the selected edit: with a valid selection the
/// configuration becomes the edit's result, the selected entry is
/// resolved, and every problem whose single edit now changes nothing is
/// resolved too; with no valid selection nothing changes.
pub open spec fn apply_edit_effect(
    old_store: ProblemStore,
    old_lines: Seq<Seq<char>>,
    problem_index: int,
    edit_index: int,
    new_store: ProblemStore,
    new_lines: Seq<Seq<char>>,
) -> bool {
    if 0 <= edit_index < edits_at_spec(old_store, problem_index).len() {
        let fix = edits_at_spec(old_store, problem_index)[edit_index];
        let sel = selected_entry(old_store, problem_index);
        &&& new_lines == apply_spec(fix, old_lines)
        &&& new_store.aborted == old_store.aborted
        &&& new_store.entries@.len() == old_store.entries@.len()
            + crate::config_editor::replacement_spec(fix).len()
        &&& forall|i: int|
            0 <= i < old_store.entries@.len() ==> {
                &&& (#[trigger] new_store.entries@[i]).problem == old_store.entries@[i].problem
                &&& new_store.entries@[i].resolved == (old_store.entries@[i].resolved || i == sel
                    || (fixes_spec(old_store.entries@[i].problem).len() == 1 && apply_spec(
                    fixes_spec(old_store.entries@[i].problem)[0],
                    new_lines,
                ) == new_lines))
            }
        &&& forall|j: int|
            0 <= j < crate::config_editor::replacement_spec(fix).len() ==> {
                &&& (#[trigger] new_store.entries@[old_store.entries@.len() + j]).problem
                    == crate::config_editor::replacement_spec(fix)[j]
                &&& new_store.entries@[old_store.entries@.len() + j].resolved == (fixes_spec(
                    crate::config_editor::replacement_spec(fix)[j],
                ).len() == 1 && apply_spec(
                    fixes_spec(crate::config_editor::replacement_spec(fix)[j])[0],
                    new_lines,
                ) == new_lines)
            }
    } else {
        new_store == old_store && new_lines == old_lines
    }
}

/// The (mode, key) pairs the screen reacts to; every other pair leaves
/// everything as it was.
pub open spec fn reacts(mode: Mode, key: Key) -> bool {
    ||| key == Key::CharQ
    ||| key == Key::CharH
    ||| key == Key::Question
    ||| key == Key::Esc
    ||| (mode == Mode::SelectProblem && (key == Key::Up || key == Key::Down || key == Key::Enter
        || key == Key::Space || key == Key::CharA))
    ||| (mode == Mode::SelectEdit && (key == Key::Up || key == Key::Down || key == Key::Enter
        || key == Key::Space))
    ||| (mode == Mode::PromptAutoAccept && key == Key::Enter)
}

/// The edits available for the problem at a position of the deduplicated
/// listing.
pub fn edits_for_problem(store: &ProblemStore, problem_index: usize) -> (r: Vec<Edit>)
    ensures
        r@ == edits_at_spec(*store, problem_index as int),
{
    let dd = store.deduplicated_indices();
    if problem_index < dd.len() {
        let entry_index = dd[problem_index];
        proof {
            crate::problem_store::lemma_dedup_idxs_bounds(
                store.entries@,
                store.entries@.len() as int,
            );
        }
        fixes_for_problem(&store.entries[entry_index].problem)
    } else {
        Vec::new()
    }
}

impl ProblemsUi {
    pub fn new(config_path: String) -> (r: ProblemsUi)
        ensures
            r.modes@ == seq![Mode::SelectProblem],
            r.problem_index == 0,
            r.edit_index == 0,
            !r.accept_single_enabled,
            r.config_path == config_path,
    {
        let mut modes: Vec<Mode> = Vec::new();
        modes.push(Mode::SelectProblem);
        proof {
            assert(modes@ =~= seq![Mode::SelectProblem]);
        }
        ProblemsUi { modes, problem_index: 0, edit_index: 0, accept_single_enabled: false, config_path }
    }

    /// The screen asks to quit once every mode was popped.
    pub fn quit_requested(&self) -> (r: bool)
        ensures
            r == (self.modes@.len() == 0),
    {
        self.modes.len() == 0
    }

    /// The edits for the selected problem.
    pub fn edits(&self, store: &ProblemStore) -> (r: Vec<Edit>)
        ensures
            r@ == edits_at_spec(*store, self.problem_index as int),
    {
        edits_for_problem(store, self.problem_index)
    }

    /// The configuration text to write back.
    pub fn write_config(&self, editor: &ConfigEditor) -> (r: String)
        ensures
            r@ == crate::textutil::join_spec(line_views(editor.lines@), '\n'),
    {
        editor.to_toml()
    }

    /// Applies, for every unresolved problem whose fix is a single edit,
    /// that edit, and resolves the problem.  Problems with zero or several
    /// edits stay; every single-edit problem ends resolved.
    pub fn accept_all_single_edits(&self, store: &mut ProblemStore, editor: &mut ConfigEditor)
        ensures
            auto_accept_effect(
                *old(store),
                line_views(old(editor).lines@),
                *final(store),
                line_views(final(editor).lines@),
            ),
    {
        let n = store.entries.len();
        let mut i: usize = 0;
        while i < n
            invariant
                n == store.entries@.len(),
                n == old(store).entries@.len(),
                i <= n,
                store.aborted == old(store).aborted,
                forall|k: int|
                    i <= k < n ==> #[trigger] store.entries@[k] == old(store).entries@[k],
                forall|k: int|
                    0 <= k < i ==> {
                        &&& (#[trigger] store.entries@[k]).problem == old(store).entries@[
                            k
                        ].problem
                        &&& store.entries@[k].resolved == (old(store).entries@[k].resolved
                            || fixes_spec(old(store).entries@[k].problem).len() == 1)
                    },
                line_views(editor.lines@) == apply_singles(
                    old(store).entries@,
                    line_views(old(editor).lines@),
                    i as int,
                ),
            decreases n - i,
        {
            let single = {
                let fixes = fixes_for_problem(&store.entries[i].problem);
                fixes.len() == 1
            };
            if !store.entries[i].resolved && single {
                let fixes = fixes_for_problem(&store.entries[i].problem);
                let _ = apply_edit(&fixes[0], editor);
                store.resolve(i);
            }
            i = i + 1;
        }
    }

    /// Runs the auto-accept pass when it was enabled earlier.
    pub fn problems_added(&self, store: &mut ProblemStore, editor: &mut ConfigEditor)
        ensures
            !self.accept_single_enabled ==> *final(store) == *old(store) && *final(editor)
                == *old(editor),
            self.accept_single_enabled ==> auto_accept_effect(
                *old(store),
                line_views(old(editor).lines@),
                *final(store),
                line_views(final(editor).lines@),
            ),
    {
        if self.accept_single_enabled {
            self.accept_all_single_edits(store, editor);
        }
    }

    /// Applies the selected edit, resolves the problem that proposed it,
    /// and resolves whatever other problems now have a no-op single edit.
    pub fn apply_selected_edit(&self, store: &mut ProblemStore, editor: &mut ConfigEditor) -> (r:
        Result<(), String>)
        ensures
            r is Ok,
            apply_edit_effect(
                *old(store),
                line_views(old(editor).lines@),
                self.problem_index as int,
                self.edit_index as int,
                *final(store),
                line_views(final(editor).lines@),
            ),
    {
        let dd = store.deduplicated_indices();
        if self.problem_index >= dd.len() {
            proof {
                assert(edits_at_spec(*store, self.problem_index as int).len() == 0);
            }
            return Ok(());
        }
        let entry_index = dd[self.problem_index];
        proof {
            crate::problem_store::lemma_dedup_idxs_bounds(
                store.entries@,
                store.entries@.len() as int,
            );
        }
        let edits = fixes_for_problem(&store.entries[entry_index].problem);
        if self.edit_index >= edits.len() {
            return Ok(());
        }
        let _ = apply_edit(&edits[self.edit_index], editor);
        let follow_ups = crate::config_editor::replacement_problems(&edits[self.edit_index]);
        store.replace(entry_index, follow_ups);
        proof {
            assert(store.entries@ =~= old(store).entries@.update(
                entry_index as int,
                crate::problem_store::ProblemStoreEntry {
                    resolved: true,
                    ..old(store).entries@[entry_index as int]
                },
            ));
        }
        store.resolve_problems_with_empty_diff(editor);
        Ok(())
    }

    /// One key of input: the state machine of the problem screen.
    ///
    /// In `SelectProblem`, up and down move the selection, enter or space
    /// open the edit list (an error when there is none), and `a` prompts
    /// for auto-accept.  In `SelectEdit`, up and down move, enter or space
    /// apply.  Enter confirms the auto-accept prompt.  `h` or `?` push
    /// help, escape pops a mode, `q` clears the stack to request quitting.
    pub fn handle_key(
        &mut self,
        key: Key,
        store: &mut ProblemStore,
        editor: &mut ConfigEditor,
    ) -> (r: Result<(), String>)
        ensures
            final(self).config_path == old(self).config_path,
            final(store).entries@.len() >= old(store).entries@.len(),
            old(self).modes@.len() == 0 ==> *final(self) == *old(self) && *final(store) == *old(
                store,
            ) && *final(editor) == *old(editor) && r is Ok,
            old(self).modes@.len() > 0 && key == Key::CharQ ==> {
                &&& final(self).modes@.len() == 0
                &&& final(self).problem_index == old(self).problem_index
                &&& final(self).edit_index == old(self).edit_index
                &&& final(self).accept_single_enabled == old(self).accept_single_enabled
                &&& *final(store) == *old(store)
                &&& *final(editor) == *old(editor)
                &&& r is Ok
            },
            old(self).modes@.len() > 0 && (key == Key::CharH || key == Key::Question) ==> {
                &&& final(self).modes@ == old(self).modes@.push(Mode::Help)
                &&& final(self).problem_index == old(self).problem_index
                &&& final(self).edit_index == old(self).edit_index
                &&& final(self).accept_single_enabled == old(self).accept_single_enabled
                &&& *final(store) == *old(store)
                &&& *final(editor) == *old(editor)
                &&& r is Ok
            },
            old(self).modes@.len() > 0 && key == Key::Esc ==> {
                &&& final(self).modes@ == if old(self).modes@.len() >= 2 {
                    old(self).modes@.drop_last()
                } else {
                    old(self).modes@
                }
                &&& final(self).problem_index == old(self).problem_index
                &&& final(self).edit_index == old(self).edit_index
                &&& final(self).accept_single_enabled == old(self).accept_single_enabled
                &&& *final(store) == *old(store)
                &&& *final(editor) == *old(editor)
                &&& r is Ok
            },
            old(self).modes@.len() > 0 && old(self).modes@.last() == Mode::SelectProblem && (key
                == Key::Up || key == Key::Down) ==> {
                &&& final(self).modes == old(self).modes
                &&& final(self).edit_index == old(self).edit_index
                &&& final(self).accept_single_enabled == old(self).accept_single_enabled
                &&& *final(store) == *old(store)
                &&& *final(editor) == *old(editor)
                &&& final(self).problem_index as int == (if unresolved_count(
                    old(store).entries@,
                    old(store).entries@.len() as int,
                ) > 0 && old(self).problem_index < unresolved_count(
                    old(store).entries@,
                    old(store).entries@.len() as int,
                ) {
                    if key == Key::Up {
                        (old(self).problem_index + unresolved_count(
                            old(store).entries@,
                            old(store).entries@.len() as int,
                        ) - 1) % unresolved_count(
                            old(store).entries@,
                            old(store).entries@.len() as int,
                        )
                    } else {
                        (old(self).problem_index + 1) % unresolved_count(
                            old(store).entries@,
                            old(store).entries@.len() as int,
                        )
                    }
                } else {
                    old(self).problem_index as int
                })
                &&& r is Ok
            },
            old(self).modes@.len() > 0 && old(self).modes@.last() == Mode::SelectEdit && (key
                == Key::Up || key == Key::Down) ==> {
                &&& final(self).modes == old(self).modes
                &&& final(self).problem_index == old(self).problem_index
                &&& final(self).accept_single_enabled == old(self).accept_single_enabled
                &&& *final(store) == *old(store)
                &&& *final(editor) == *old(editor)
                &&& final(self).edit_index as int == (if edits_at_spec(
                    *old(store),
                    old(self).problem_index as int,
                ).len() > 0 && old(self).edit_index < edits_at_spec(
                    *old(store),
                    old(self).problem_index as int,
                ).len() {
                    if key == Key::Up {
                        (old(self).edit_index + edits_at_spec(
                            *old(store),
                            old(self).problem_index as int,
                        ).len() - 1) % (edits_at_spec(
                            *old(store),
                            old(self).problem_index as int,
                        ).len() as int)
                    } else {
                        (old(self).edit_index + 1) % (edits_at_spec(
                            *old(store),
                            old(self).problem_index as int,
                        ).len() as int)
                    }
                } else {
                    old(self).edit_index as int
                })
                &&& r is Ok
            },
            old(self).modes@.len() > 0 && old(self).modes@.last() == Mode::SelectProblem && (key
                == Key::Enter || key == Key::Space) && edits_at_spec(
                *old(store),
                old(self).problem_index as int,
            ).len() == 0 ==> {
                &&& *final(self) == *old(self)
                &&& *final(store) == *old(store)
                &&& *final(editor) == *old(editor)
                &&& r matches Err(e) && e@
                    == "Sorry. No automatic edits exist for this problem"@
            },
            old(self).modes@.len() > 0 && old(self).modes@.last() == Mode::SelectProblem && (key
                == Key::Enter || key == Key::Space) && edits_at_spec(
                *old(store),
                old(self).problem_index as int,
            ).len() > 0 ==> {
                &&& final(self).modes@ == old(self).modes@.push(Mode::SelectEdit)
                &&& final(self).edit_index == 0
                &&& final(self).problem_index == old(self).problem_index
                &&& final(self).accept_single_enabled == old(self).accept_single_enabled
                &&& *final(store) == *old(store)
                &&& *final(editor) == *old(editor)
                &&& r is Ok
            },
            old(self).modes@.len() > 0 && old(self).modes@.last() == Mode::SelectEdit && (key
                == Key::Enter || key == Key::Space) ==> {
                &&& apply_edit_effect(
                    *old(store),
                    line_views(old(editor).lines@),
                    old(self).problem_index as int,
                    old(self).edit_index as int,
                    *final(store),
                    line_views(final(editor).lines@),
                )
                &&& final(self).modes@ == old(self).modes@.drop_last()
                &&& final(self).edit_index == old(self).edit_index
                &&& final(self).accept_single_enabled == old(self).accept_single_enabled
                &&& final(self).problem_index == (if old(self).problem_index as int
                    >= unresolved_count(
                    final(store).entries@,
                    final(store).entries@.len() as int,
                ) {
                    0
                } else {
                    old(self).problem_index
                })
                &&& r is Ok
            },
            old(self).modes@.len() > 0 && old(self).modes@.last() == Mode::SelectProblem && key
                == Key::CharA ==> {
                &&& final(self).modes@ == if old(self).accept_single_enabled {
                    old(self).modes@
                } else {
                    old(self).modes@.push(Mode::PromptAutoAccept)
                }
                &&& final(self).problem_index == old(self).problem_index
                &&& final(self).edit_index == old(self).edit_index
                &&& final(self).accept_single_enabled == old(self).accept_single_enabled
                &&& *final(store) == *old(store)
                &&& *final(editor) == *old(editor)
                &&& r is Ok
            },
            old(self).modes@.len() > 0 && old(self).modes@.last() == Mode::PromptAutoAccept && key
                == Key::Enter ==> {
                &&& final(self).accept_single_enabled
                &&& auto_accept_effect(
                    *old(store),
                    line_views(old(editor).lines@),
                    *final(store),
                    line_views(final(editor).lines@),
                )
                &&& final(self).modes@ == old(self).modes@.drop_last()
                &&& final(self).problem_index == old(self).problem_index
                &&& final(self).edit_index == old(self).edit_index
                &&& r is Ok
            },
            old(self).modes@.len() > 0 && !reacts(old(self).modes@.last(), key) ==> *final(self)
                == *old(self) && *final(store) == *old(store) && *final(editor) == *old(editor)
                && r is Ok,
    {
        if self.modes.len() == 0 {
            return Ok(());
        }
        let mode = self.modes[self.modes.len() - 1];
        match (mode, key) {
            (_, Key::CharQ) => {
                self.modes.clear();
                Ok(())
            },
            (_, Key::CharH) | (_, Key::Question) => {
                self.modes.push(Mode::Help);
                Ok(())
            },
            (_, Key::Esc) => {
                if self.modes.len() >= 2 {
                    let _ = self.modes.pop();
                    proof {
                        assert(self.modes@ =~= old(self).modes@.drop_last());
                    }
                }
                Ok(())
            },
            (Mode::SelectProblem, Key::Up) | (Mode::SelectProblem, Key::Down) => {
                let len = store.len();
                if len > 0 && self.problem_index < len {
                    let up = match key {
                        Key::Up => true,
                        _ => false,
                    };
                    crate::term::update_counter(&mut self.problem_index, up, len);
                }
                Ok(())
            },
            (Mode::SelectEdit, Key::Up) | (Mode::SelectEdit, Key::Down) => {
                let num_edits = self.edits(store).len();
                if num_edits > 0 && self.edit_index < num_edits {
                    let up = match key {
                        Key::Up => true,
                        _ => false,
                    };
                    crate::term::update_counter(&mut self.edit_index, up, num_edits);
                }
                Ok(())
            },
            (Mode::SelectProblem, Key::Enter) | (Mode::SelectProblem, Key::Space) => {
                if self.edits(store).len() == 0 {
                    let mut msg = String::new();
                    msg.append("Sorry. No automatic edits exist for this problem");
                    return Err(msg);
                }
                self.modes.push(Mode::SelectEdit);
                self.edit_index = 0;
                Ok(())
            },
            (Mode::SelectEdit, Key::Enter) | (Mode::SelectEdit, Key::Space) => {
                let r = self.apply_selected_edit(store, editor);
                if self.problem_index >= store.len() {
                    self.problem_index = 0;
                }
                let _ = self.modes.pop();
                r
            },
            (Mode::SelectProblem, Key::CharA) => {
                if !self.accept_single_enabled {
                    self.modes.push(Mode::PromptAutoAccept);
                }
                Ok(())
            },
            (Mode::PromptAutoAccept, Key::Enter) => {
                self.accept_single_enabled = true;
                self.accept_all_single_edits(store, editor);
                let _ = self.modes.pop();
                Ok(())
            },
            _ => Ok(()),
        }
    }
}

} // verus!
