//! Choosing among the player's dialogue options, by mouse or by keys.

use vstd::prelude::*;

verus! {

/// A dialogue option as the dialogue runner offers it.
pub struct DialogueOption {
    pub id: usize,
    pub text: String,
    pub is_available: bool,
}

/// What a button of the options list is doing under the mouse.
#[derive(Clone, Copy, Debug, PartialEq, Eq, Structural)]
pub enum Interaction {
    Pressed,
    Hovered,
    Idle,
}

/// The options on offer, split into those the player may choose and those
/// shown as unavailable, and which one the keys have selected.
pub struct OptionSelection {
    pub mouse_input: bool,
    pub current_selection: Option<usize>,
    pub options: Vec<DialogueOption>,
    pub unavailable_options: Vec<DialogueOption>,
}

/// The ids of `options`.
pub open spec fn ids(options: Seq<DialogueOption>) -> Seq<usize> {
    options.map_values(|o: DialogueOption| o.id)
}

/// The options of `all` whose availability is `available`, in order.
pub open spec fn with_availability(all: Seq<DialogueOption>, available: bool) -> Seq<DialogueOption>
    decreases all.len(),
{
    if all.len() == 0 {
        Seq::empty()
    } else if all.last().is_available == available {
        with_availability(all.drop_last(), available).push(all.last())
    } else {
        with_availability(all.drop_last(), available)
    }
}

/// A copy of `o`.
fn copy_option(o: &DialogueOption) -> (c: DialogueOption)
    ensures
        c.id == o.id,
        c.text@ == o.text@,
        c.is_available == o.is_available,
{
    DialogueOption { id: o.id, text: o.text.clone(), is_available: o.is_available }
}

/// Whether two option lists agree on ids, texts and availability.
pub open spec fn same_options(a: Seq<DialogueOption>, b: Seq<DialogueOption>) -> bool {
    &&& a.len() == b.len()
    &&& forall|i: int|
        0 <= i < a.len() ==> (#[trigger] a[i]).id == b[i].id && a[i].text@ == b[i].text@
            && a[i].is_available == b[i].is_available
}

/// A copy of the options `v`.
fn copy_options(v: &Vec<DialogueOption>) -> (c: Vec<DialogueOption>)
    ensures
        same_options(c@, v@),
{
    let mut c: Vec<DialogueOption> = Vec::new();
    let mut k: usize = 0;
    while k < v.len()
        invariant
            k <= v@.len(),
            same_options(c@, v@.take(k as int)),
        decreases v@.len() - k,
    {
        c.push(copy_option(&v[k]));
        k = k + 1;
    }
    assert(v@.take(k as int) =~= v@);
    c
}

impl OptionSelection {
    /// Whether the keys' selection, if any, names an available option.
    pub open spec fn wf(&self) -> bool {
        self.current_selection matches Some(i) ==> i < self.options@.len()
    }

    /// Splits the options on offer into the available ones and the others,
    /// each in the order offered; nothing is selected and the mouse leads.
    pub fn from_option_set(dialogue_options: &Vec<DialogueOption>) -> (s: Self)
        ensures
            s.wf(),
            s.mouse_input,
            s.current_selection is None,
            same_options(s.options@, with_availability(dialogue_options@, true)),
            same_options(s.unavailable_options@, with_availability(dialogue_options@, false)),
    {
        let mut options: Vec<DialogueOption> = Vec::new();
        let mut unavailable_options: Vec<DialogueOption> = Vec::new();
        let mut k: usize = 0;
        while k < dialogue_options.len()
            invariant
                k <= dialogue_options@.len(),
                same_options(options@, with_availability(dialogue_options@.take(k as int), true)),
                same_options(
                    unavailable_options@,
                    with_availability(dialogue_options@.take(k as int), false),
                ),
            decreases dialogue_options@.len() - k,
        {
            assert(dialogue_options@.take(k + 1).drop_last() =~= dialogue_options@.take(k as int));
            let option = copy_option(&dialogue_options[k]);
            if option.is_available {
                options.push(option);
            } else {
                unavailable_options.push(option);
            }
            k = k + 1;
        }
        assert(dialogue_options@.take(k as int) =~= dialogue_options@);
        OptionSelection { mouse_input: true, current_selection: None, options, unavailable_options }
    }

    /// A copy of the available options.
    pub fn get_options(&self) -> (v: Vec<DialogueOption>)
        ensures
            same_options(v@, self.options@),
    {
        copy_options(&self.options)
    }

    /// A copy of the unavailable options.
    pub fn get_unavailable_options(&self) -> (v: Vec<DialogueOption>)
        ensures
            same_options(v@, self.unavailable_options@),
    {
        copy_options(&self.unavailable_options)
    }
}

/// The keys' selection after a step of `direction` (up is positive): the
/// first option when none was selected, else the option `direction` places
/// above, kept within the list.
pub open spec fn stepped(selection: Option<usize>, len: int, direction: int) -> Option<usize> {
    if direction == 0 {
        selection
    } else {
        match selection {
            Some(r) => Some(
                (if r - direction < 0 {
                    0
                } else if r - direction > len - 1 {
                    len - 1
                } else {
                    r - direction
                }) as usize,
            ),
            None => if len > 0 {
                Some(0)
            } else {
                None
            },
        }
    }
}

/// `|x|`.
pub open spec fn abs_int(x: int) -> int {
    if x < 0 {
        -x
    } else {
        x
    }
}

/// The distance between `a` and `b`.
pub open spec fn distance(a: int, b: int) -> int {
    abs_int(a - b)
}

/// Whether `n` is a position on a list of `len` options nearest to
/// `target`: no position of the list is nearer.
pub open spec fn nearest_on_list(n: int, target: int, len: int) -> bool {
    &&& 0 <= n < len
    &&& forall|m: int| 0 <= m < len ==> distance(n, target) <= #[trigger] distance(m, target)
}

/// A key step keeps the selection on the list and moves it to the option
/// nearest to where `direction` points (`r - direction`, up being
/// positive): no option of the list lies nearer to that place, and the
/// selection never moves farther than the step. With nothing selected, a
/// step selects the first option, if there is one.
pub proof fn lemma_step_stays_nearest(selection: Option<usize>, len: int, direction: int)
    requires
        direction != 0,
        0 <= len <= usize::MAX,
        selection matches Some(r) ==> r < len,
    ensures
        match selection {
            Some(r) => stepped(selection, len, direction) matches Some(n) && nearest_on_list(
                n as int,
                r - direction,
                len,
            ) && distance(n as int, r as int) <= abs_int(direction),
            None => stepped(selection, len, direction) == if len > 0 {
                Some(0usize)
            } else {
                None
            },
        },
{
    if let Some(r) = selection {
        let t = r - direction;
        let n: int = if t < 0 {
            0
        } else if t > len - 1 {
            len - 1
        } else {
            t
        };
        assert(stepped(selection, len, direction) == Some(n as usize));
        assert(n as usize == n);
        assert forall|m: int| 0 <= m < len implies distance(n, t) <= #[trigger] distance(m, t) by {}
        assert(nearest_on_list(n, t, len));
    }
}

/// What a frame of option selection leads to: which option buttons to
/// highlight (when their colours change) and which option ids are chosen.
pub struct SelectionOutcome {
    pub highlighted: Option<Vec<bool>>,
    pub chosen: Vec<usize>,
}

/// The ids of the pressed buttons among `buttons`, in order.
pub open spec fn pressed_ids(buttons: Seq<(Interaction, usize)>) -> Seq<usize>
    decreases buttons.len(),
{
    if buttons.len() == 0 {
        Seq::empty()
    } else if buttons.last().0 == Interaction::Pressed {
        pressed_ids(buttons.drop_last()).push(buttons.last().1)
    } else {
        pressed_ids(buttons.drop_last())
    }
}

/// Whether any of `buttons` is hovered.
pub open spec fn any_hovered(buttons: Seq<(Interaction, usize)>) -> bool {
    exists|i: int| 0 <= i < buttons.len() && (#[trigger] buttons[i]).0 == Interaction::Hovered
}

impl OptionSelection {
    /// One frame of choosing an option, once the line before the options is
    /// written. Moving the mouse hands control to the mouse; a key step
    /// (`direction`) hands it to the keys and moves the selection. Under
    /// the mouse, a pressed button chooses its option, a hovered one drops
    /// the keys' selection and is highlighted; under the keys, the selected
    /// button is highlighted. Confirming chooses the keys' selection.
    pub fn select_option(
        &mut self,
        typewriter_finished: bool,
        mouse_moved: bool,
        direction: i8,
        buttons: &Vec<(Interaction, usize)>,
        confirm: bool,
    ) -> (outcome: SelectionOutcome)
        requires
            old(self).wf(),
            typewriter_finished && direction != 0 && old(self).current_selection is Some ==> {
                &&& old(self).options@.len() <= 127
                &&& -128 <= old(self).current_selection->Some_0 - direction <= 127
            },
        ensures
            final(self).wf(),
            final(self).options == old(self).options,
            final(self).unavailable_options == old(self).unavailable_options,
            !typewriter_finished ==> *final(self) == *old(self) && outcome.highlighted is None
                && outcome.chosen@.len() == 0,
            typewriter_finished ==> {
                let mouse = if direction != 0 {
                    false
                } else if mouse_moved {
                    true
                } else {
                    old(self).mouse_input
                };
                let keys = stepped(
                    old(self).current_selection,
                    old(self).options@.len() as int,
                    direction as int,
                );
                let sel = if mouse && any_hovered(buttons@) {
                    None
                } else {
                    keys
                };
                &&& final(self).mouse_input == mouse
                &&& final(self).current_selection == sel
                &&& (match outcome.highlighted {
                    Some(h) => mouse ==> h@ == Seq::new(
                        buttons@.len(),
                        |i: int| buttons@[i].0 == Interaction::Hovered,
                    ),
                    None => !mouse,
                })
                &&& (!mouse ==> match sel {
                    Some(r) => outcome.highlighted matches Some(h) && h@ == Seq::new(
                        buttons@.len(),
                        |i: int| i == r,
                    ),
                    None => outcome.highlighted is None,
                })
                &&& outcome.chosen@ == (if mouse {
                    pressed_ids(buttons@)
                } else {
                    Seq::empty()
                }) + (if confirm && sel is Some {
                    seq![old(self).options@[sel->Some_0 as int].id]
                } else {
                    Seq::empty()
                })
            },
    {
        if !typewriter_finished {
            return SelectionOutcome { highlighted: None, chosen: Vec::new() };
        }
        if mouse_moved {
            self.mouse_input = true;
        }
        if direction != 0 {
            self.mouse_input = false;
            match self.current_selection {
                Some(r) => {
                    let len = self.options.len();
                    let target = r as i8 - direction;
                    let top = len as i8 - 1;
                    let new_index: usize = if target < 0 {
                        0
                    } else if target > top {
                        top as usize
                    } else {
                        target as usize
                    };
                    self.current_selection = Some(new_index);
                },
                None => {
                    if self.options.len() > 0 {
                        self.current_selection = Some(0);
                    }
                },
            }
        }
        let mut chosen: Vec<usize> = Vec::new();
        let mut highlighted: Option<Vec<bool>> = None;
        if self.mouse_input {
            let mut colors: Vec<bool> = Vec::new();
            let mut k: usize = 0;
            let ghost sel0 = self.current_selection;
            while k < buttons.len()
                invariant
                    k <= buttons@.len(),
                    colors@ == Seq::new(k as nat, |i: int| buttons@[i].0 == Interaction::Hovered),
                    chosen@ == pressed_ids(buttons@.take(k as int)),
                    self.options == old(self).options,
                    self.unavailable_options == old(self).unavailable_options,
                    self.mouse_input,
                    self.current_selection == if any_hovered(buttons@.take(k as int)) {
                        None
                    } else {
                        sel0
                    },
                    sel0 matches Some(i) ==> i < self.options@.len(),
                decreases buttons@.len() - k,
            {
                let (interaction, id) = buttons[k];
                assert(buttons@.take(k + 1).drop_last() =~= buttons@.take(k as int));
                match interaction {
                    Interaction::Pressed => {
                        chosen.push(id);
                        colors.push(false);
                    },
                    Interaction::Hovered => {
                        self.current_selection = None;
                        colors.push(true);
                        assert(buttons@.take(k + 1)[k as int].0 == Interaction::Hovered);
                    },
                    Interaction::Idle => {
                        colors.push(false);
                    },
                }
                proof {
                    if any_hovered(buttons@.take(k as int)) {
                        let i = choose|i: int| 0 <= i < k && (#[trigger] buttons@.take(k as int)[i]).0 == Interaction::Hovered;
                        assert(buttons@.take(k + 1)[i].0 == Interaction::Hovered);
                    }
                    if any_hovered(buttons@.take(k + 1)) && interaction != Interaction::Hovered {
                        let i = choose|i: int| 0 <= i < k + 1 && (#[trigger] buttons@.take(k + 1)[i]).0 == Interaction::Hovered;
                        assert(buttons@.take(k as int)[i].0 == Interaction::Hovered);
                    }
                }
                k = k + 1;
                assert(colors@ =~= Seq::new(k as nat, |i: int| buttons@[i].0 == Interaction::Hovered));
            }
            assert(buttons@.take(k as int) =~= buttons@);
            highlighted = Some(colors);
        } else if let Some(r) = self.current_selection {
            let mut colors: Vec<bool> = Vec::new();
            let mut k: usize = 0;
            while k < buttons.len()
                invariant
                    k <= buttons@.len(),
                    colors@ == Seq::new(k as nat, |i: int| i == r),
                decreases buttons@.len() - k,
            {
                colors.push(k == r);
                k = k + 1;
                assert(colors@ =~= Seq::new(k as nat, |i: int| i == r));
            }
            highlighted = Some(colors);
        }
        if confirm {
            if let Some(index) = self.current_selection {
                chosen.push(self.options[index].id);
            }
        }
        SelectionOutcome { highlighted, chosen }
    }
}

} // verus!
