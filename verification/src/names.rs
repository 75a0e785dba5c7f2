//! Names of entities, scenes, skills and sprite sheets, and string helpers.
use vstd::prelude::*;

verus! {

/// Compares two strings character by character.
pub fn str_equal(a: &str, b: &str) -> (r: bool)
    ensures
        r == (a@ == b@),
{
    let n = a.unicode_len();
    if n != b.unicode_len() {
        return false;
    }
    let mut i: usize = 0;
    while i < n
        invariant
            n == a@.len(),
            n == b@.len(),
            i <= n,
            forall|j: int| 0 <= j < i ==> a@[j] == b@[j],
        decreases n - i,
    {
        if a.get_char(i) != b.get_char(i) {
            return false;
        }
        i = i + 1;
    }
    assert(a@ =~= b@);
    true
}

/// Appends one character to a string: `String::push`, which std documents as
/// appending the given char to the end of the string; trusted, not proved.
#[verifier::external_body]
pub(crate) fn push_char(s: &mut String, c: char)
    ensures
        final(s)@ == old(s)@.push(c),
{
    s.push(c);
}

/// The name of an entity.
pub struct EntityName(String);

/// The name of a scene.
pub struct SceneName(String);

/// The name of a skill.
pub struct SkillName(String);

/// The name of a sprite sheet.
pub struct SpriteSheetName(String);

impl View for EntityName {
    type V = Seq<char>;

    closed spec fn view(&self) -> Seq<char> {
        self.0@
    }
}

impl View for SceneName {
    type V = Seq<char>;

    closed spec fn view(&self) -> Seq<char> {
        self.0@
    }
}

impl View for SkillName {
    type V = Seq<char>;

    closed spec fn view(&self) -> Seq<char> {
        self.0@
    }
}

impl View for SpriteSheetName {
    type V = Seq<char>;

    closed spec fn view(&self) -> Seq<char> {
        self.0@
    }
}

impl EntityName {
    pub fn from_str(s: &str) -> (r: EntityName)
        ensures
            r@ == s@,
    {
        EntityName(String::from_str(s))
    }

    pub fn as_str(&self) -> (r: &str)
        ensures
            r@ == self@,
    {
        self.0.as_str()
    }

    pub fn clone_name(&self) -> (r: EntityName)
        ensures
            r@ == self@,
    {
        EntityName(self.0.clone())
    }
}

impl SceneName {
    pub fn from_str(s: &str) -> (r: SceneName)
        ensures
            r@ == s@,
    {
        SceneName(String::from_str(s))
    }

    pub fn as_str(&self) -> (r: &str)
        ensures
            r@ == self@,
    {
        self.0.as_str()
    }

    pub fn clone_name(&self) -> (r: SceneName)
        ensures
            r@ == self@,
    {
        SceneName(self.0.clone())
    }
}

impl SkillName {
    pub fn from_str(s: &str) -> (r: SkillName)
        ensures
            r@ == s@,
    {
        SkillName(String::from_str(s))
    }

    pub fn as_str(&self) -> (r: &str)
        ensures
            r@ == self@,
    {
        self.0.as_str()
    }
}

impl SpriteSheetName {
    pub fn from_str(s: &str) -> (r: SpriteSheetName)
        ensures
            r@ == s@,
    {
        SpriteSheetName(String::from_str(s))
    }

    pub fn as_str(&self) -> (r: &str)
        ensures
            r@ == self@,
    {
        self.0.as_str()
    }
}

} // verus!
