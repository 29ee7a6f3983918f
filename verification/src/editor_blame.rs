//! Showing who wrote the lines of an editor.

use crate::editor::{BlameState, Editor, InlineBlamePopover};
use crate::editor_effect::{EditorEffect, EffectView};
use vstd::prelude::*;

verus! {

/// What blame depends on besides the editor.
#[derive(Clone, Copy, Debug, PartialEq, Eq, Structural)]
pub struct BlameContext {
    /// The number under which a new blame would be begun.
    pub fresh: u64,
    /// Whether the editor shows a single buffer that has no file.
    pub without_file: bool,
    /// Whether the blame that was begun has found something out.
    pub has_entries: bool,
    /// Whether the blame of a line is shown after a delay only.
    pub delayed: bool,
    /// Whether the editor, or something in it, has the focus.
    pub contains_focused: bool,
    /// Whether the editor itself has the focus.
    pub is_focused: bool,
    /// Whether the cursor is on an empty line.
    pub on_empty_line: bool,
    /// Whether the blame of a line is shown behind its text.
    pub inline: bool,
    /// Whether the editor is a miniature of another.
    pub is_minimap: bool,
}

/// Whether something was found out.
pub open spec fn has_entries(editor: Editor, context: BlameContext) -> bool {
    editor.blame_state.blame is Some && context.has_entries
}

/// What beginning a blame does. It takes a project and, for a single buffer, a file.
pub open spec fn starts_blame(
    before: Editor,
    after: Editor,
    user_triggered: bool,
    context: BlameContext,
) -> bool {
    if before.has_project && !context.without_file {
        &&& after == (Editor {
            blame_state: BlameState { blame: Some(context.fresh), ..before.blame_state },
            effects: after.effects,
            ..before
        })
        &&& after.asked() == before.asked().push(
            EffectView::StartBlame {
                blame: context.fresh,
                user_triggered,
                focused: context.contains_focused,
            },
        )
    } else {
        after == before
    }
}

/// What showing the blame of the line of the cursor does, at once or after a delay.
pub open spec fn shows_inline_blame(before: Editor, after: Editor, context: BlameContext) -> bool {
    if context.delayed {
        &&& after == (Editor {
            blame_state: BlameState { show_git_blame_inline: false, ..before.blame_state },
            effects: after.effects,
            ..before
        })
        &&& after.asked() == before.asked().push(EffectView::StartInlineBlameTimer)
    } else {
        after == (Editor {
            blame_state: BlameState { show_git_blame_inline: true, ..before.blame_state },
            ..before
        })
    }
}

/// What beginning to show the blame of the line of the cursor does.
pub open spec fn starts_inline_blame(
    before: Editor,
    after: Editor,
    user_triggered: bool,
    context: BlameContext,
) -> bool {
    exists|started: Editor| #[trigger]
        starts_blame(before, started, user_triggered, context) && shows_inline_blame(
            started,
            after,
            context,
        )
}

/// What switching the blame of the line of the cursor on or off does.
pub open spec fn toggles_inline_blame(
    before: Editor,
    after: Editor,
    user_triggered: bool,
    context: BlameContext,
) -> bool {
    if before.blame_state.git_blame_inline_enabled {
        &&& after == (Editor {
            blame_state: BlameState {
                git_blame_inline_enabled: false,
                show_git_blame_inline: false,
                ..before.blame_state
            },
            effects: after.effects,
            ..before
        })
        &&& after.asked() == before.asked().push(EffectView::CancelInlineBlameTimer)
    } else {
        starts_inline_blame(
            Editor {
                blame_state: BlameState { git_blame_inline_enabled: true, ..before.blame_state },
                ..before
            },
            after,
            user_triggered,
            context,
        )
    }
}

/// What showing the popover does: one that is shown stays, and else it is opened, at once or
/// after a delay.
pub open spec fn shows_popover(before: Editor, after: Editor, at_once: bool) -> bool {
    match before.blame_state.inline_blame_popover {
        Some(popover) => {
            &&& after == (Editor {
                blame_state: BlameState {
                    inline_blame_popover: Some(InlineBlamePopover { hiding: false, ..popover }),
                    ..before.blame_state
                },
                effects: after.effects,
                ..before
            })
            &&& after.asked() == before.asked().push(EffectView::KeepBlamePopover)
        },
        None => {
            &&& after == (Editor {
                blame_state: BlameState { popover_awaited: true, ..before.blame_state },
                effects: after.effects,
                ..before
            })
            &&& after.asked() == before.asked().push(EffectView::ShowBlamePopover { at_once })
        },
    }
}

impl Editor {
    /// Whether the blame of the line of the cursor is switched on.
    pub fn git_blame_inline_enabled(&self) -> (enabled: bool)
        ensures
            enabled == self.blame_state.git_blame_inline_enabled,
    {
        self.blame_state.git_blame_inline_enabled
    }

    /// The blame that was begun.
    pub fn blame(&self) -> (blame: Option<u64>)
        ensures
            blame == self.blame_state.blame,
    {
        self.blame_state.blame
    }

    /// Whether the blame of all lines is switched on.
    pub fn show_git_blame_gutter(&self) -> (shown: bool)
        ensures
            shown == self.blame_state.show_git_blame_gutter,
    {
        self.blame_state.show_git_blame_gutter
    }

    /// Whether something was found out.
    pub fn has_blame_entries(&self, context: &BlameContext) -> (has: bool)
        ensures
            has == has_entries(*self, *context),
    {
        self.blame_state.blame.is_some() && context.has_entries
    }

    /// The entry of the line of the cursor, `entry`, where it is to be shown.
    pub fn active_git_blame_entry<E: Copy>(&self, entry: Option<E>, context: &BlameContext) -> (active:
        Option<E>)
        ensures
            active == if self.blame_state.show_git_blame_inline && !context.on_empty_line && has_entries(
                *self,
                *context,
            ) {
                entry
            } else {
                None
            },
    {
        if !self.blame_state.show_git_blame_inline || context.on_empty_line || !self.has_blame_entries(
            context,
        ) {
            None
        } else {
            entry
        }
    }

    /// Begins a blame.
    pub(crate) fn start_git_blame(&mut self, user_triggered: bool, context: &BlameContext)
        ensures
            starts_blame(*old(self), *final(self), user_triggered, *context),
    {
        if self.has_project && !context.without_file {
            self.blame_state.blame = Some(context.fresh);
            self.ask(
                EditorEffect::StartBlame {
                    blame: context.fresh,
                    user_triggered,
                    focused: context.contains_focused,
                },
            );
        }
    }

    /// Switches the blame of all lines on or off, and begins one where there is none.
    pub fn toggle_git_blame(&mut self, context: &BlameContext)
        ensures
            ({
                let toggled = Editor {
                    blame_state: BlameState {
                        show_git_blame_gutter: !old(self).blame_state.show_git_blame_gutter,
                        ..old(self).blame_state
                    },
                    ..*old(self)
                };
                if toggled.blame_state.show_git_blame_gutter && !has_entries(*old(self), *context) {
                    starts_blame(toggled, *final(self), true, *context)
                } else {
                    *final(self) == toggled
                }
            }),
    {
        self.blame_state.show_git_blame_gutter = !self.blame_state.show_git_blame_gutter;
        if self.blame_state.show_git_blame_gutter && !self.has_blame_entries(context) {
            self.start_git_blame(true, context);
        }
    }

    /// Switches the blame of the line of the cursor on or off, as the user asked.
    pub fn toggle_git_blame_inline(&mut self, context: &BlameContext)
        ensures
            toggles_inline_blame(*old(self), *final(self), true, *context),
    {
        self.toggle_git_blame_inline_internal(true, context);
    }

    /// Switches the blame of the line of the cursor on or off.
    pub fn toggle_git_blame_inline_internal(&mut self, user_triggered: bool, context: &BlameContext)
        ensures
            toggles_inline_blame(*old(self), *final(self), user_triggered, *context),
    {
        if self.blame_state.git_blame_inline_enabled {
            self.blame_state.git_blame_inline_enabled = false;
            self.blame_state.show_git_blame_inline = false;
            self.ask(EditorEffect::CancelInlineBlameTimer);
        } else {
            self.blame_state.git_blame_inline_enabled = true;
            self.start_git_blame_inline(user_triggered, context);
        }
    }

    /// Begins a blame and shows that of the line of the cursor.
    pub fn start_git_blame_inline(&mut self, user_triggered: bool, context: &BlameContext)
        ensures
            starts_inline_blame(*old(self), *final(self), user_triggered, *context),
    {
        self.start_git_blame(user_triggered, context);
        let ghost started = *self;
        if context.delayed {
            self.start_inline_blame_timer(context);
        } else {
            self.blame_state.show_git_blame_inline = true;
        }
        assert(starts_blame(*old(self), started, user_triggered, *context));
    }

    /// Shows the blame of the line of the cursor after the delay, if there is one.
    pub fn start_inline_blame_timer(&mut self, context: &BlameContext)
        ensures
            if context.delayed {
                &&& *final(self) == (Editor {
                    blame_state: BlameState {
                        show_git_blame_inline: false,
                        ..old(self).blame_state
                    },
                    effects: final(self).effects,
                    ..*old(self)
                })
                &&& final(self).asked() == old(self).asked().push(
                    EffectView::StartInlineBlameTimer,
                )
            } else {
                *final(self) == *old(self)
            },
    {
        if context.delayed {
            self.blame_state.show_git_blame_inline = false;
            self.ask(EditorEffect::StartInlineBlameTimer);
        }
    }

    /// The delay is over.
    pub fn inline_blame_delay_passed(&mut self)
        ensures
            *final(self) == (Editor {
                blame_state: BlameState { show_git_blame_inline: true, ..old(self).blame_state },
                ..*old(self)
            }),
    {
        self.blame_state.show_git_blame_inline = true;
    }

    /// Whether the blame of all lines is shown.
    pub fn render_git_blame_gutter(&self, context: &BlameContext) -> (shown: bool)
        ensures
            shown == (!context.is_minimap && self.blame_state.show_git_blame_gutter && has_entries(
                *self,
                *context,
            )),
    {
        !context.is_minimap && self.blame_state.show_git_blame_gutter && self.has_blame_entries(context)
    }

    /// Whether the blame of the line of the cursor is shown behind its text.
    pub fn render_git_blame_inline(&self, context: &BlameContext) -> (shown: bool)
        ensures
            shown == (context.inline && self.blame_state.show_git_blame_inline && (context.is_focused
                || self.blame_state.inline_blame_popover is Some) && !context.on_empty_line && has_entries(
                *self,
                *context,
            )),
    {
        context.inline && self.blame_state.show_git_blame_inline && (context.is_focused
            || self.blame_state.inline_blame_popover.is_some()) && !context.on_empty_line
            && self.has_blame_entries(context)
    }

    /// Hides the popover, at once or in a moment, and does not show one that is awaited. Says
    /// whether there was one to hide.
    pub fn hide_blame_popover(&mut self, ignore_timeout: bool) -> (hidden: bool)
        ensures
            hidden == (old(self).blame_state.inline_blame_popover is Some),
            *final(self) == (Editor {
                blame_state: BlameState {
                    popover_awaited: false,
                    inline_blame_popover: match old(self).blame_state.inline_blame_popover {
                        Some(popover) => if ignore_timeout {
                            None
                        } else {
                            Some(InlineBlamePopover { hiding: true, ..popover })
                        },
                        None => None,
                    },
                    ..old(self).blame_state
                },
                effects: final(self).effects,
                ..*old(self)
            }),
            final(self).asked() == old(self).asked() + (if hidden && !ignore_timeout {
                seq![EffectView::CancelBlamePopover, EffectView::HideBlamePopoverLater]
            } else {
                seq![EffectView::CancelBlamePopover]
            }),
    {
        self.blame_state.popover_awaited = false;
        self.ask(EditorEffect::CancelBlamePopover);
        let hidden = match self.blame_state.inline_blame_popover {
            Some(popover) => {
                if ignore_timeout {
                    self.blame_state.inline_blame_popover = None;
                } else {
                    self.blame_state.inline_blame_popover = Some(
                        InlineBlamePopover {
                            hiding: true,
                            keyboard_grace: popover.keyboard_grace,
                        },
                    );
                    self.ask(EditorEffect::HideBlamePopoverLater);
                }
                true
            },
            None => false,
        };
        assert(self.asked() =~= old(self).asked() + (if hidden && !ignore_timeout {
            seq![EffectView::CancelBlamePopover, EffectView::HideBlamePopoverLater]
        } else {
            seq![EffectView::CancelBlamePopover]
        }));
        hidden
    }

    /// The moment after which the popover goes away is over.
    pub fn blame_popover_timed_out(&mut self)
        ensures
            *final(self) == (Editor {
                blame_state: BlameState { inline_blame_popover: None, ..old(self).blame_state },
                ..*old(self)
            }),
    {
        self.blame_state.inline_blame_popover = None;
    }

    /// Shows the popover, at once or after a delay.
    pub fn show_blame_popover(&mut self, ignore_timeout: bool)
        ensures
            shows_popover(*old(self), *final(self), ignore_timeout),
    {
        match self.blame_state.inline_blame_popover {
            Some(popover) => {
                self.blame_state.inline_blame_popover = Some(
                    InlineBlamePopover { hiding: false, keyboard_grace: popover.keyboard_grace },
                );
                self.ask(EditorEffect::KeepBlamePopover);
            },
            None => {
                self.blame_state.popover_awaited = true;
                self.ask(EditorEffect::ShowBlamePopover { at_once: ignore_timeout });
            },
        }
    }

    /// The popover that was awaited is there, unless the blame is gone.
    pub fn blame_popover_ready(&mut self, ignore_timeout: bool)
        ensures
            *final(self) == (Editor {
                blame_state: BlameState {
                    popover_awaited: false,
                    inline_blame_popover: if old(self).blame_state.blame is Some {
                        Some(InlineBlamePopover { hiding: false, keyboard_grace: ignore_timeout })
                    } else {
                        old(self).blame_state.inline_blame_popover
                    },
                    ..old(self).blame_state
                },
                ..*old(self)
            }),
    {
        self.blame_state.popover_awaited = false;
        if self.blame_state.blame.is_some() {
            self.blame_state.inline_blame_popover = Some(
                InlineBlamePopover { hiding: false, keyboard_grace: ignore_timeout },
            );
        }
    }

    /// Shows the popover at the cursor, if the line there has an entry and a place on the screen.
    pub fn show_blame_hover_popover(&mut self, has_entry: bool, has_place: bool)
        ensures
            if old(self).blame_state.blame is Some && has_entry && has_place {
                shows_popover(*old(self), *final(self), true)
            } else {
                *final(self) == *old(self)
            },
    {
        if self.blame_state.blame.is_some() && has_entry && has_place {
            self.show_blame_popover(true);
        }
    }

    /// Shows the popover at the cursor. Where there is no blame, one is begun, and the popover
    /// is shown once something was found out.
    pub fn blame_hover(&mut self, has_entry: bool, has_place: bool, context: &BlameContext)
        ensures
            hovers(*old(self), *final(self), has_entry, has_place, *context),
    {
        let just_started = self.blame_state.blame.is_none();
        if just_started {
            self.start_git_blame(true, context);
        }
        let ghost started = *self;
        if self.blame_state.blame.is_some() {
            if just_started && !context.has_entries {
                self.blame_state.hover_awaited = true;
            } else {
                self.show_blame_hover_popover(has_entry, has_place);
            }
        }
        proof {
            if just_started {
                assert(starts_blame(*old(self), started, true, *context));
            }
        }
    }

    /// Something was found out.
    pub fn blame_entries_ready(&mut self, has_entry: bool, has_place: bool)
        ensures
            if old(self).blame_state.hover_awaited {
                let ready = Editor {
                    blame_state: BlameState { hover_awaited: false, ..old(self).blame_state },
                    ..*old(self)
                };
                if old(self).blame_state.blame is Some && has_entry && has_place {
                    shows_popover(ready, *final(self), true)
                } else {
                    *final(self) == ready
                }
            } else {
                *final(self) == *old(self)
            },
    {
        if self.blame_state.hover_awaited {
            self.blame_state.hover_awaited = false;
            self.show_blame_hover_popover(has_entry, has_place);
        }
    }

    /// Opens the commit of the line of the cursor, if the line has an entry and there are a
    /// repository and a workspace to open it in.
    pub fn open_git_blame_commit(
        &mut self,
        has_entry: bool,
        has_repository: bool,
        has_workspace: bool,
    )
        ensures
            if old(self).blame_state.blame is Some && has_entry && has_repository
                && has_workspace {
                &&& *final(self) == (Editor { effects: final(self).effects, ..*old(self) })
                &&& final(self).asked() == old(self).asked().push(EffectView::OpenBlameCommit)
            } else {
                *final(self) == *old(self)
            },
    {
        if self.blame_state.blame.is_some() && has_entry && has_repository && has_workspace {
            self.ask(EditorEffect::OpenBlameCommit);
        }
    }
}

/// What asking for the popover at the cursor does.
pub open spec fn hovers(
    before: Editor,
    after: Editor,
    has_entry: bool,
    has_place: bool,
    context: BlameContext,
) -> bool {
    if before.blame_state.blame is Some {
        shows_at_cursor(before, after, has_entry, has_place)
    } else {
        exists|started: Editor| #[trigger]
            starts_blame(before, started, true, context) && if started.blame_state.blame is None {
                after == started
            } else if context.has_entries {
                shows_at_cursor(started, after, has_entry, has_place)
            } else {
                after == (Editor {
                    blame_state: BlameState { hover_awaited: true, ..started.blame_state },
                    ..started
                })
            }
    }
}

/// What showing the popover at the cursor does.
pub open spec fn shows_at_cursor(
    before: Editor,
    after: Editor,
    has_entry: bool,
    has_place: bool,
) -> bool {
    if has_entry && has_place {
        shows_popover(before, after, true)
    } else {
        after == before
    }
}

} // verus!
