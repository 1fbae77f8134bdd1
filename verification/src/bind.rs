//! Key bindings.

use crate::keysym;
use crate::text;
use vstd::prelude::*;

verus! {

/// Modifier keys. A binding applies only with exactly its modifiers held.
#[derive(Debug, Clone, Copy, PartialEq, Eq, Structural)]
pub struct Modifiers {
    pub logo: bool,
    pub ctrl: bool,
    pub alt: bool,
    pub shift: bool,
}

impl Default for Modifiers {
    fn default() -> (m: Modifiers)
        ensures
            m == (Modifiers { logo: false, ctrl: false, alt: false, shift: false }),
    {
        Modifiers { logo: false, ctrl: false, alt: false, shift: false }
    }
}

/// A modifier's name as it is compared: trimmed, without regard to case.
pub open spec fn modifier_name(part: Seq<char>) -> Seq<char> {
    text::lower_all(text::trim(part))
}

/// Names of the logo key.
pub open spec fn names_logo(name: Seq<char>) -> bool {
    name == "mod4"@ || name == "super"@ || name == "logo"@ || name == "cmd"@
}

/// Names of the control key.
pub open spec fn names_ctrl(name: Seq<char>) -> bool {
    name == "ctrl"@ || name == "control"@
}

/// Names of the alt key.
pub open spec fn names_alt(name: Seq<char>) -> bool {
    name == "alt"@ || name == "mod1"@
}

/// Names of the shift key.
pub open spec fn names_shift(name: Seq<char>) -> bool {
    name == "shift"@
}

/// The predicate "one of the first `n` parts has such a name".
pub open spec fn some_part(parts: Seq<Seq<char>>, n: int, names: spec_fn(Seq<char>) -> bool) -> bool {
    exists|i: int| 0 <= i < n && names(modifier_name(#[trigger] parts[i]))
}

/// The modifiers that the first `n` parts name.
pub open spec fn named_modifiers(parts: Seq<Seq<char>>, n: int) -> Modifiers {
    Modifiers {
        logo: some_part(parts, n, |name: Seq<char>| names_logo(name)),
        ctrl: some_part(parts, n, |name: Seq<char>| names_ctrl(name)),
        alt: some_part(parts, n, |name: Seq<char>| names_alt(name)),
        shift: some_part(parts, n, |name: Seq<char>| names_shift(name)),
    }
}

proof fn lemma_some_part_step(parts: Seq<Seq<char>>, n: int, names: spec_fn(Seq<char>) -> bool)
    requires
        0 <= n < parts.len(),
    ensures
        some_part(parts, n + 1, names) == (some_part(parts, n, names) || names(
            modifier_name(parts[n]),
        )),
{
    if some_part(parts, n + 1, names) && !names(modifier_name(parts[n])) {
        let i = choose|i: int| 0 <= i < n + 1 && names(modifier_name(#[trigger] parts[i]));
        assert(i < n);
        assert(names(modifier_name(parts[i])));
    }
    if some_part(parts, n, names) {
        let i = choose|i: int| 0 <= i < n && names(modifier_name(#[trigger] parts[i]));
        assert(names(modifier_name(parts[i])));
    }
}

impl Modifiers {
    /// Reads modifiers such as `Mod4+Shift`: names between plus signs. A name
    /// that is not known is passed over.
    pub fn parse(spec: &str) -> (m: Modifiers)
        ensures
            m == named_modifiers(text::split(spec@, '+'), text::split(spec@, '+').len() as int),
    {
        let chars: Vec<char> = text::chars_of(spec);
        let parts: Vec<Vec<char>> = text::split_on(chars.as_slice(), '+');
        let ghost views = text::split(spec@, '+');
        let mut mods = Modifiers { logo: false, ctrl: false, alt: false, shift: false };
        let mut i: usize = 0;
        assert(text::parts_view(parts@).len() == parts@.len());
        while i < parts.len()
            invariant
                i <= parts@.len(),
                parts@.len() == views.len(),
                text::parts_view(parts@) == views,
                mods == named_modifiers(views, i as int),
            decreases parts@.len() - i,
        {
            let trimmed: Vec<char> = text::trimmed(parts[i].as_slice());
            let name: Vec<char> = text::to_lower(trimmed.as_slice());
            proof {
                assert(views[i as int] == text::parts_view(parts@)[i as int]);
                assert(name@ == modifier_name(views[i as int]));
                lemma_some_part_step(views, i as int, |name: Seq<char>| names_logo(name));
                lemma_some_part_step(views, i as int, |name: Seq<char>| names_ctrl(name));
                lemma_some_part_step(views, i as int, |name: Seq<char>| names_alt(name));
                lemma_some_part_step(views, i as int, |name: Seq<char>| names_shift(name));
            }
            let name: &[char] = name.as_slice();
            if text::same_text(name, "mod4") || text::same_text(name, "super") || text::same_text(
                name,
                "logo",
            ) || text::same_text(name, "cmd") {
                mods.logo = true;
            }
            if text::same_text(name, "shift") {
                mods.shift = true;
            }
            if text::same_text(name, "ctrl") || text::same_text(name, "control") {
                mods.ctrl = true;
            }
            if text::same_text(name, "alt") || text::same_text(name, "mod1") {
                mods.alt = true;
            }
            i = i + 1;
        }
        mods
    }
}

/// A key binding: modifiers and key. What it does is known by its position in
/// the list of bindings.
#[derive(Debug, Clone, Copy, PartialEq, Eq, Structural)]
pub struct Bind {
    pub mods: Modifiers,
    pub keysym: u32,
}

/// Whether two symbols are the same key.
pub open spec fn same_key(a: u32, b: u32) -> bool {
    keysym::folded(a, keysym::keysym_char(a)) == keysym::folded(b, keysym::keysym_char(b))
}

impl Bind {
    /// Whether the binding applies to a key press.
    pub open spec fn spec_matches(self, mods: Modifiers, keysym: u32) -> bool {
        self.mods == mods && same_key(self.keysym, keysym)
    }

    /// Whether the binding applies to a key press. Letters match in either
    /// case.
    pub fn matches(&self, mods: Modifiers, keysym: u32) -> (r: bool)
        ensures
            r == self.spec_matches(mods, keysym),
            self.mods != mods ==> !r,
            self.mods == mods && self.keysym == keysym ==> r,
            self.mods == mods && 0x61 <= self.keysym <= 0x7a && keysym == self.keysym - 0x20 ==> r,
            self.mods == mods && 0x61 <= keysym <= 0x7a && self.keysym == keysym - 0x20 ==> r,
            0x61 <= self.keysym <= 0x7a && 0x61 <= keysym <= 0x7a && self.keysym != keysym ==> !r,
    {
        self.mods == mods && keysym::normalize_keysym(self.keysym) == keysym::normalize_keysym(
            keysym,
        )
    }
}

/// Whether the first binding that applies is at `i`.
pub open spec fn first_bind(binds: Seq<Bind>, mods: Modifiers, keysym: u32, i: int) -> bool {
    &&& 0 <= i < binds.len()
    &&& binds[i].spec_matches(mods, keysym)
    &&& forall|j: int| 0 <= j < i ==> !(#[trigger] binds[j]).spec_matches(mods, keysym)
}

/// The first binding that applies to a key press.
pub fn find_bind(binds: &[Bind], mods: Modifiers, keysym: u32) -> (r: Option<usize>)
    ensures
        r is Some ==> first_bind(binds@, mods, keysym, r->0 as int),
        r is None ==> forall|j: int|
            0 <= j < binds@.len() ==> !(#[trigger] binds@[j]).spec_matches(mods, keysym),
{
    let mut i: usize = 0;
    while i < binds.len()
        invariant
            i <= binds@.len(),
            forall|j: int| 0 <= j < i ==> !(#[trigger] binds@[j]).spec_matches(mods, keysym),
        decreases binds@.len() - i,
    {
        if binds[i].matches(mods, keysym) {
            return Some(i);
        }
        i = i + 1;
    }
    None
}

/// A binding applies only with exactly its modifiers held: one more or one less
/// and it does not.
pub proof fn bindings_need_exactly_their_modifiers(b: Bind, mods: Modifiers, keysym: u32)
    ensures
        b.spec_matches(mods, keysym) ==> b.mods.logo == mods.logo && b.mods.ctrl == mods.ctrl
            && b.mods.alt == mods.alt && b.mods.shift == mods.shift,
        b.spec_matches(b.mods, b.keysym),
{
}

/// A text names a modifier if one of its parts does; further parts never take
/// one away.
pub proof fn parts_only_add_modifiers(parts: Seq<Seq<char>>, n: int)
    requires
        0 <= n < parts.len(),
    ensures
        ({
            let before = named_modifiers(parts, n);
            let after = named_modifiers(parts, n + 1);
            let name = modifier_name(parts[n]);
            &&& after.logo == (before.logo || names_logo(name))
            &&& after.ctrl == (before.ctrl || names_ctrl(name))
            &&& after.alt == (before.alt || names_alt(name))
            &&& after.shift == (before.shift || names_shift(name))
            &&& named_modifiers(parts, 0) == (Modifiers {
                logo: false,
                ctrl: false,
                alt: false,
                shift: false,
            })
        }),
{
    lemma_some_part_step(parts, n, |name: Seq<char>| names_logo(name));
    lemma_some_part_step(parts, n, |name: Seq<char>| names_ctrl(name));
    lemma_some_part_step(parts, n, |name: Seq<char>| names_alt(name));
    lemma_some_part_step(parts, n, |name: Seq<char>| names_shift(name));
}

/// A single name stands for its own modifier alone: `mod4`, `super`, `logo` and
/// `cmd` for the logo key, `ctrl` and `control` for control, `alt` and `mod1` for
/// alt, `shift` for shift. Any other name stands for none.
pub proof fn names_stand_for_one_modifier(part: Seq<char>)
    ensures
        ({
            let m = named_modifiers(seq![part], 1);
            let name = text::lower_all(text::trim(part));
            &&& m.logo <==> name == "mod4"@ || name == "super"@ || name == "logo"@ || name
                == "cmd"@
            &&& m.ctrl <==> name == "ctrl"@ || name == "control"@
            &&& m.alt <==> name == "alt"@ || name == "mod1"@
            &&& m.shift <==> name == "shift"@
            &&& m.logo ==> !m.ctrl && !m.alt && !m.shift
            &&& m.ctrl ==> !m.alt && !m.shift
            &&& m.alt ==> !m.shift
        }),
{
    let one = seq![part];
    parts_only_add_modifiers(one, 0);
    reveal_strlit("mod4");
    reveal_strlit("super");
    reveal_strlit("logo");
    reveal_strlit("cmd");
    reveal_strlit("ctrl");
    reveal_strlit("control");
    reveal_strlit("alt");
    reveal_strlit("mod1");
    reveal_strlit("shift");
    assert("mod4"@.len() == 4 && "mod4"@[0] == 'm' && "mod4"@[3] == '4');
    assert("super"@.len() == 5 && "super"@[1] == 'u');
    assert("logo"@.len() == 4 && "logo"@[0] == 'l' && "logo"@[3] == 'o');
    assert("cmd"@.len() == 3 && "cmd"@[0] == 'c');
    assert("ctrl"@.len() == 4 && "ctrl"@[0] == 'c' && "ctrl"@[3] == 'l');
    assert("control"@.len() == 7);
    assert("alt"@.len() == 3 && "alt"@[0] == 'a');
    assert("mod1"@.len() == 4 && "mod1"@[0] == 'm' && "mod1"@[3] == '1');
    assert("shift"@.len() == 5 && "shift"@[1] == 'h');
}

} // verus!
