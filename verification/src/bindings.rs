//! Buttons, preset bindings, and the registry that maps a preset to its
//! label and operation sequence. The registry is an explicitly constructed,
//! immutable object handed in by the caller; the catalog's contents are not
//! the library's concern, only the lookups over them.

use vstd::prelude::*;

verus! {

use crate::button::{Op, OpView, Value};
use vstd::string::StringExecFns;

/// A physical button of the supported devices, in the device's numbering.
#[derive(Clone, Copy, Hash, Eq, PartialEq, Debug, Structural)]
pub enum HardwareButton {
    Right,
    Middle,
    LeftBottom,
    LeftTop,
    ScrollLeft,
    ScrollRight,
    LeftCenter,
}

pub open spec fn spec_hw_from_u8(num: u8) -> Option<HardwareButton> {
    if num == 0 {
        Some(HardwareButton::Right)
    } else if num == 1 {
        Some(HardwareButton::Middle)
    } else if num == 2 {
        Some(HardwareButton::LeftBottom)
    } else if num == 3 {
        Some(HardwareButton::LeftTop)
    } else if num == 4 {
        Some(HardwareButton::ScrollLeft)
    } else if num == 5 {
        Some(HardwareButton::ScrollRight)
    } else if num == 6 {
        Some(HardwareButton::LeftCenter)
    } else {
        None
    }
}

pub open spec fn spec_hw_to_u8(b: HardwareButton) -> u8 {
    match b {
        HardwareButton::Right => 0,
        HardwareButton::Middle => 1,
        HardwareButton::LeftBottom => 2,
        HardwareButton::LeftTop => 3,
        HardwareButton::ScrollLeft => 4,
        HardwareButton::ScrollRight => 5,
        HardwareButton::LeftCenter => 6,
    }
}

impl HardwareButton {
    /// Every button, in device order.
    pub fn iter() -> (r: Vec<HardwareButton>)
        ensures
            r@ == seq![
                HardwareButton::Right,
                HardwareButton::Middle,
                HardwareButton::LeftBottom,
                HardwareButton::LeftTop,
                HardwareButton::ScrollLeft,
                HardwareButton::ScrollRight,
                HardwareButton::LeftCenter,
            ],
    {
        let mut r: Vec<HardwareButton> = Vec::new();
        r.push(HardwareButton::Right);
        r.push(HardwareButton::Middle);
        r.push(HardwareButton::LeftBottom);
        r.push(HardwareButton::LeftTop);
        r.push(HardwareButton::ScrollLeft);
        r.push(HardwareButton::ScrollRight);
        r.push(HardwareButton::LeftCenter);
        proof {
            assert(r@ =~= seq![
                HardwareButton::Right,
                HardwareButton::Middle,
                HardwareButton::LeftBottom,
                HardwareButton::LeftTop,
                HardwareButton::ScrollLeft,
                HardwareButton::ScrollRight,
                HardwareButton::LeftCenter,
            ]);
        }
        r
    }

    pub fn from_u8(num: u8) -> (r: Option<Self>)
        ensures
            r == spec_hw_from_u8(num),
    {
        match num {
            0 => Some(Self::Right),
            1 => Some(Self::Middle),
            2 => Some(Self::LeftBottom),
            3 => Some(Self::LeftTop),
            4 => Some(Self::ScrollLeft),
            5 => Some(Self::ScrollRight),
            6 => Some(Self::LeftCenter),
            _ => None,
        }
    }

    pub fn to_u8(self) -> (r: u8)
        ensures
            r == spec_hw_to_u8(self),
            spec_hw_from_u8(r) == Some(self),
    {
        match self {
            Self::Right => 0,
            Self::Middle => 1,
            Self::LeftBottom => 2,
            Self::LeftTop => 3,
            Self::ScrollLeft => 4,
            Self::ScrollRight => 5,
            Self::LeftCenter => 6,
        }
    }

    /// The preset this button carries out of the box.
    pub fn def_binding(self) -> (r: PresetBinding)
        ensures
            r == spec_def_binding(self),
    {
        match self {
            Self::Right => PresetBinding::RightClick,
            Self::Middle => PresetBinding::MiddleClick,
            Self::LeftBottom => PresetBinding::Back,
            Self::LeftTop => PresetBinding::Forward,
            Self::ScrollLeft => PresetBinding::ScrollLeft,
            Self::ScrollRight => PresetBinding::ScrollRight,
            Self::LeftCenter => PresetBinding::SwitchApplications,
        }
    }
}

pub open spec fn spec_def_binding(b: HardwareButton) -> PresetBinding {
    match b {
        HardwareButton::Right => PresetBinding::RightClick,
        HardwareButton::Middle => PresetBinding::MiddleClick,
        HardwareButton::LeftBottom => PresetBinding::Back,
        HardwareButton::LeftTop => PresetBinding::Forward,
        HardwareButton::ScrollLeft => PresetBinding::ScrollLeft,
        HardwareButton::ScrollRight => PresetBinding::ScrollRight,
        HardwareButton::LeftCenter => PresetBinding::SwitchApplications,
    }
}

/// The named bindings a caller can choose from.
#[derive(Clone, Copy, Eq, Hash, PartialEq, Debug, Structural)]
pub enum PresetBinding {
    RightClick,
    LeftClick,
    MiddleClick,
    ScrollLeft,
    ScrollRight,
    Back,
    Forward,
    SwitchApplications,
    Disabled,
    VolumeDown,
    VolumeUp,
    NextTrack,
    PreviousTrack,
    PlayPause,
    Mute,
    Copy,
    Cut,
    Paste,
    Undo,
    SelectAll,
    Redo,
    Find,
    Refresh,
    OpenTab,
    CloseTab,
    NewWindow,
    Home,
    SaveBookmark,
    ZoomIn,
    ZoomOut,
    MoveToWorkspaceBelow,
    MoveToWorkspaceAbove,
    WorkspacesOverview,
    ToggleFullscreen,
    Restart,
    LogOut,
    LockScreen,
    Super,
    PrintScreen,
    ShowApplications,
    ShowLauncher,
    BrightnessUp,
    BrightnessDown,
}

/// One catalog entry: a preset, its human-readable label, the operation
/// sequence it stands for, and an optional keyboard shortcut label.
#[derive(Debug)]
pub struct Entry {
    pub id: PresetBinding,
    pub label: String,
    pub binding: Vec<Op>,
    pub keybind: Option<String>,
}

pub struct EntryView {
    pub id: PresetBinding,
    pub label: Seq<char>,
    pub binding: Seq<OpView>,
    pub keybind: Option<Seq<char>>,
}

impl DeepView for Entry {
    type V = EntryView;

    open spec fn deep_view(&self) -> EntryView {
        EntryView {
            id: self.id,
            label: self.label@,
            binding: self.binding.deep_view(),
            keybind: self.keybind.deep_view(),
        }
    }
}

/// A labelled group of entries.
pub struct Category {
    pub label: String,
    pub entries: Vec<Entry>,
}

pub struct CategoryView {
    pub label: Seq<char>,
    pub entries: Seq<EntryView>,
}

impl DeepView for Category {
    type V = CategoryView;

    open spec fn deep_view(&self) -> CategoryView {
        CategoryView { label: self.label@, entries: self.entries.deep_view() }
    }
}

/// The immutable catalog of preset bindings, built once by the caller and
/// passed to whatever resolves a chosen binding.
pub struct BindingRegistry {
    pub categories: Vec<Category>,
}

/// Some entry of the registry has this preset id.
pub open spec fn reg_has_id(cats: Seq<CategoryView>, id: PresetBinding) -> bool {
    exists|ci: int, k: int|
        0 <= ci < cats.len() && 0 <= k < cats[ci].entries.len() && (#[trigger] cats[ci].entries[k]).id
            == id
}

/// `ev` is the first entry of the registry, in category order and then
/// entry order, with this preset id.
pub open spec fn reg_entry_for_id(cats: Seq<CategoryView>, id: PresetBinding, ev: EntryView) -> bool {
    exists|ci: int, k: int|
        0 <= ci < cats.len() && 0 <= k < cats[ci].entries.len() && (#[trigger] cats[ci].entries[k]).id
            == id && cats[ci].entries[k] == ev && (forall|c2: int, k2: int|
            0 <= c2 < ci && 0 <= k2 < cats[c2].entries.len() ==> (#[trigger] cats[c2].entries[k2]).id
                != id) && (forall|k2: int|
            0 <= k2 < k ==> (#[trigger] cats[ci].entries[k2]).id != id)
}

/// Some entry of the registry has this operation sequence.
pub open spec fn reg_has_binding(cats: Seq<CategoryView>, ops: Seq<OpView>) -> bool {
    exists|ci: int, k: int|
        0 <= ci < cats.len() && 0 <= k < cats[ci].entries.len() && (#[trigger] cats[ci].entries[k]).binding
            == ops
}

/// `ev` is the first entry of the registry, in category order and then
/// entry order, with this operation sequence.
pub open spec fn reg_entry_for_binding(
    cats: Seq<CategoryView>,
    ops: Seq<OpView>,
    ev: EntryView,
) -> bool {
    exists|ci: int, k: int|
        0 <= ci < cats.len() && 0 <= k < cats[ci].entries.len() && (#[trigger] cats[ci].entries[k]).binding
            == ops && cats[ci].entries[k] == ev && (forall|c2: int, k2: int|
            0 <= c2 < ci && 0 <= k2 < cats[c2].entries.len() ==> (#[trigger] cats[c2].entries[k2]).binding
                != ops) && (forall|k2: int|
            0 <= k2 < k ==> (#[trigger] cats[ci].entries[k2]).binding != ops)
}

impl PresetBinding {
    /// The registry entry carrying this preset.
    pub fn entry<'a>(self, registry: &'a BindingRegistry) -> (r: Option<&'a Entry>)
        ensures
            match r {
                None => !reg_has_id(registry.categories.deep_view(), self),
                Some(e) => reg_entry_for_id(registry.categories.deep_view(), self, e.deep_view()),
            },
    {
        let ghost cats = registry.categories.deep_view();
        let mut ci: usize = 0;
        while ci < registry.categories.len()
            invariant
                cats == registry.categories.deep_view(),
                cats.len() == registry.categories@.len(),
                ci <= cats.len(),
                forall|c2: int, k2: int|
                    0 <= c2 < ci && 0 <= k2 < cats[c2].entries.len() ==> (#[trigger] cats[c2].entries[k2]).id
                        != self,
            decreases cats.len() - ci,
        {
            let cat = &registry.categories[ci];
            let mut k: usize = 0;
            while k < cat.entries.len()
                invariant
                    cats == registry.categories.deep_view(),
                    cats.len() == registry.categories@.len(),
                    ci < cats.len(),
                    cat == &registry.categories@[ci as int],
                    cat.deep_view() == cats[ci as int],
                    k <= cat.entries@.len(),
                    cat.entries.deep_view() == cats[ci as int].entries,
                    forall|c2: int, k2: int|
                        0 <= c2 < ci && 0 <= k2 < cats[c2].entries.len() ==> (#[trigger] cats[c2].entries[k2]).id
                            != self,
                    forall|k2: int|
                        0 <= k2 < k ==> (#[trigger] cats[ci as int].entries[k2]).id != self,
                decreases cat.entries@.len() - k,
            {
                let e = &cat.entries[k];
                proof {
                    assert(e.deep_view() == cats[ci as int].entries[k as int]);
                }
                if e.id == self {
                    proof {
                        assert(cats[ci as int].entries[k as int].id == self);
                        assert(reg_entry_for_id(cats, self, e.deep_view()));
                    }
                    return Some(e);
                }
                k = k + 1;
            }
            ci = ci + 1;
        }
        None
    }
}

/// Whether two operations are the same instruction with the same operands.
fn op_eq(a: &Op, b: &Op) -> (r: bool)
    ensures
        r == (a.deep_view() == b.deep_view()),
{
    match (a, b) {
        (Op::Kill, Op::Kill) => true,
        (Op::Pause(x), Op::Pause(y)) => x == y,
        (
            Op::Mouse { auto_release: a1, buttons: b1, dx: x1, dy: y1, wheel1: w1, wheel2: v1 },
            Op::Mouse { auto_release: a2, buttons: b2, dx: x2, dy: y2, wheel1: w2, wheel2: v2 },
        ) => a1 == a2 && b1 == b2 && x1 == x2 && y1 == y2 && w1 == w2 && v1 == v2,
        (
            Op::Key { auto_release: a1, payload: p1 },
            Op::Key { auto_release: a2, payload: p2 },
        ) => *a1 == *a2 && value8_vec_eq(p1, p2),
        (
            Op::Media { auto_release: a1, payload: p1 },
            Op::Media { auto_release: a2, payload: p2 },
        ) => *a1 == *a2 && value8_vec_eq(p1, p2),
        _ => false,
    }
}

fn value8_vec_eq(a: &Vec<Value<i8>>, b: &Vec<Value<i8>>) -> (r: bool)
    ensures
        r == (a@ == b@),
{
    if a.len() != b.len() {
        proof {
            assert(a@.len() != b@.len());
        }
        return false;
    }
    let mut k: usize = 0;
    while k < a.len()
        invariant
            a@.len() == b@.len(),
            k <= a@.len(),
            forall|j: int| 0 <= j < k ==> a@[j] == b@[j],
        decreases a@.len() - k,
    {
        if a[k] != b[k] {
            proof {
                assert(a@[k as int] != b@[k as int]);
            }
            return false;
        }
        k = k + 1;
    }
    proof {
        assert(a@ =~= b@);
    }
    true
}

/// Whether a stored operation sequence equals an entry's sequence.
fn ops_match(a: &[Op], b: &Vec<Op>) -> (r: bool)
    ensures
        r == (a.deep_view() == b.deep_view()),
{
    if a.len() != b.len() {
        proof {
            assert(a.deep_view().len() == a@.len());
            assert(b.deep_view().len() == b@.len());
        }
        return false;
    }
    let mut k: usize = 0;
    while k < a.len()
        invariant
            a@.len() == b@.len(),
            a.deep_view().len() == a@.len(),
            b.deep_view().len() == b@.len(),
            k <= a@.len(),
            forall|j: int| 0 <= j < k ==> a.deep_view()[j] == b.deep_view()[j],
        decreases a@.len() - k,
    {
        if !op_eq(&a[k], &b[k]) {
            proof {
                assert(a.deep_view()[k as int] == a@[k as int].deep_view());
                assert(b.deep_view()[k as int] == b@[k as int].deep_view());
            }
            return false;
        }
        proof {
            assert(a.deep_view()[k as int] == b.deep_view()[k as int]);
        }
        k = k + 1;
    }
    proof {
        assert(a.deep_view() =~= b.deep_view());
    }
    true
}

impl Entry {
    /// The registry entry whose operation sequence is exactly `binding`.
    pub fn for_binding<'a>(registry: &'a BindingRegistry, binding: &[Op]) -> (r: Option<
        &'a Entry,
    >)
        ensures
            match r {
                None => !reg_has_binding(registry.categories.deep_view(), binding.deep_view()),
                Some(e) => reg_entry_for_binding(
                    registry.categories.deep_view(),
                    binding.deep_view(),
                    e.deep_view(),
                ),
            },
    {
        let ghost cats = registry.categories.deep_view();
        let mut ci: usize = 0;
        while ci < registry.categories.len()
            invariant
                cats == registry.categories.deep_view(),
                cats.len() == registry.categories@.len(),
                ci <= cats.len(),
                forall|c2: int, k2: int|
                    0 <= c2 < ci && 0 <= k2 < cats[c2].entries.len() ==> (#[trigger] cats[c2].entries[k2]).binding
                        != binding.deep_view(),
            decreases cats.len() - ci,
        {
            let cat = &registry.categories[ci];
            let mut k: usize = 0;
            while k < cat.entries.len()
                invariant
                    cats == registry.categories.deep_view(),
                    cats.len() == registry.categories@.len(),
                    ci < cats.len(),
                    cat == &registry.categories@[ci as int],
                    cat.deep_view() == cats[ci as int],
                    k <= cat.entries@.len(),
                    cat.entries.deep_view() == cats[ci as int].entries,
                    forall|c2: int, k2: int|
                        0 <= c2 < ci && 0 <= k2 < cats[c2].entries.len() ==> (#[trigger] cats[c2].entries[k2]).binding
                            != binding.deep_view(),
                    forall|k2: int|
                        0 <= k2 < k ==> (#[trigger] cats[ci as int].entries[k2]).binding
                            != binding.deep_view(),
                decreases cat.entries@.len() - k,
            {
                let e = &cat.entries[k];
                proof {
                    assert(e.deep_view() == cats[ci as int].entries[k as int]);
                }
                if ops_match(binding, &e.binding) {
                    proof {
                        assert(cats[ci as int].entries[k as int].binding == binding.deep_view());
                        assert(reg_entry_for_binding(cats, binding.deep_view(), e.deep_view()));
                    }
                    return Some(e);
                }
                k = k + 1;
            }
            ci = ci + 1;
        }
        None
    }
}

/// What a button slot read back from the device resolves to: a recognized
/// preset, or an action the catalog does not know.
#[derive(Clone, PartialEq, Eq, Hash, Debug, Structural)]
pub enum Binding {
    Preset(PresetBinding),
    Unknown,
}

impl Binding {
    /// The human-readable label of this binding. A preset must be present
    /// in the registry.
    pub fn label(&self, registry: &BindingRegistry) -> (r: String)
        requires
            self matches Binding::Preset(p) ==> reg_has_id(registry.categories.deep_view(), *p),
        ensures
            match self {
                Binding::Preset(p) => exists|ev: EntryView|
                    #[trigger] reg_entry_for_id(registry.categories.deep_view(), *p, ev) && r@
                        == ev.label,
                Binding::Unknown => r@ == "Unknown"@,
            },
    {
        match self {
            Binding::Preset(p) => match p.entry(registry) {
                Some(e) => {
                    let ghost ev = e.deep_view();
                    let label = e.label.clone();
                    proof {
                        assert(reg_entry_for_id(registry.categories.deep_view(), *p, ev));
                        assert(label@ == ev.label);
                    }
                    label
                },
                None => vstd::pervasive::unreached(),
            },
            Binding::Unknown => String::from_str("Unknown"),
        }
    }
}

/// One profile of button bindings and handedness, keyed by button; at most
/// one binding per button is meaningful, and lookups take the first.
#[derive(Debug)]
pub struct Profile {
    pub name: Option<String>,
    pub bindings: Vec<(HardwareButton, Binding)>,
    pub left_handed: bool,
}

impl Default for Profile {
    fn default() -> (r: Self)
        ensures
            r.name is None,
            r.bindings@ == Seq::<(HardwareButton, Binding)>::empty(),
            !r.left_handed,
    {
        let r = Profile { name: None, bindings: Vec::new(), left_handed: false };
        proof {
            assert(r.bindings@ =~= Seq::<(HardwareButton, Binding)>::empty());
        }
        r
    }
}

impl Profile {
    /// The binding stored for a button: the first pair carrying it.
    pub fn binding_for(&self, button: HardwareButton) -> (r: Option<&Binding>)
        ensures
            match r {
                None => forall|j: int|
                    0 <= j < self.bindings@.len() ==> (#[trigger] self.bindings@[j]).0 != button,
                Some(b) => exists|j: int|
                    0 <= j < self.bindings@.len() && (#[trigger] self.bindings@[j]).0 == button
                        && self.bindings@[j].1 == *b && (forall|j2: int|
                        0 <= j2 < j ==> (#[trigger] self.bindings@[j2]).0 != button),
            },
    {
        let mut j: usize = 0;
        while j < self.bindings.len()
            invariant
                j <= self.bindings@.len(),
                forall|j2: int|
                    0 <= j2 < j ==> (#[trigger] self.bindings@[j2]).0 != button,
            decreases self.bindings@.len() - j,
        {
            if self.bindings[j].0 == button {
                return Some(&self.bindings[j].1);
            }
            j = j + 1;
        }
        None
    }

    /// Store a binding for a button, replacing the first pair carrying it,
    /// or appending when none does.
    pub fn set_binding(&mut self, button: HardwareButton, binding: Binding)
        ensures
            ({
                let old_b = old(self).bindings@;
                let new_b = final(self).bindings@;
                &&& final(self).name == old(self).name
                &&& final(self).left_handed == old(self).left_handed
                &&& if exists|j: int| 0 <= j < old_b.len() && (#[trigger] old_b[j]).0 == button {
                    exists|j: int|
                        0 <= j < old_b.len() && (#[trigger] old_b[j]).0 == button && (forall|
                            j2: int,
                        |
                            0 <= j2 < j ==> (#[trigger] old_b[j2]).0 != button) && new_b
                            == old_b.update(j, (button, binding))
                } else {
                    new_b == old_b.push((button, binding))
                }
            }),
    {
        let mut j: usize = 0;
        while j < self.bindings.len()
            invariant
                j <= self.bindings@.len(),
                self.bindings@ == old(self).bindings@,
                self.name == old(self).name,
                self.left_handed == old(self).left_handed,
                forall|j2: int|
                    0 <= j2 < j ==> (#[trigger] self.bindings@[j2]).0 != button,
            decreases self.bindings@.len() - j,
        {
            if self.bindings[j].0 == button {
                self.bindings[j] = (button, binding);
                return ;
            }
            j = j + 1;
        }
        self.bindings.push((button, binding));
    }
}

} // verus!
