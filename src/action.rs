use vstd::prelude::*;
use vstd::std_specs::iter::IteratorSpec;

verus! {

/// What kind of event placed a pixel.
#[derive(Debug, Clone, Copy, PartialEq, Eq, Structural)]
pub enum ActionKind {
    Place,
    Undo,
    Overwrite,
    Rollback,
    RollbackUndo,
    Nuke,
}

/// The palette entry that an action placed.
#[derive(Debug, Clone, Copy, PartialEq, Eq, Structural)]
pub enum Index {
    Color(usize),
    Transparent,
}

/// Who placed a pixel: a hashed key or a user name.
#[derive(Debug, Clone, PartialEq, Eq)]
pub enum Identifier {
    Hash(String),
    Username(String),
}

/// One logged pixel placement.
#[derive(Debug, Clone)]
pub struct Action {
    /// Milliseconds since the epoch.
    pub time: i64,
    pub user: Option<Identifier>,
    pub x: u32,
    pub y: u32,
    pub index: Option<Index>,
    pub kind: Option<ActionKind>,
}

/// The log's name of an action kind.
pub open spec fn kind_name(k: ActionKind) -> Seq<char> {
    match k {
        ActionKind::Place => "user place"@,
        ActionKind::Undo => "user undo"@,
        ActionKind::Overwrite => "mod overwrite"@,
        ActionKind::Rollback => "rollback"@,
        ActionKind::RollbackUndo => "rollback undo"@,
        ActionKind::Nuke => "console nuke"@,
    }
}

impl ActionKind {
    /// The log's name of the kind.
    pub fn to_string(&self) -> (r: String)
        ensures
            r@ == kind_name(*self),
    {
        match self {
            ActionKind::Place => "user place".to_owned(),
            ActionKind::Undo => "user undo".to_owned(),
            ActionKind::Overwrite => "mod overwrite".to_owned(),
            ActionKind::Rollback => "rollback".to_owned(),
            ActionKind::RollbackUndo => "rollback undo".to_owned(),
            ActionKind::Nuke => "console nuke".to_owned(),
        }
    }

    /// The kind with the given name, or `Err` for any other text.
    pub fn try_from(input: &str) -> (r: Result<ActionKind, ()>)
        ensures
            r matches Ok(k) ==> kind_name(k) == input@,
            r is Err <==> (forall|k: ActionKind| kind_name(k) != input@),
    {
        proof {
            reveal_strlit("user place");
            reveal_strlit("user undo");
            reveal_strlit("mod overwrite");
            reveal_strlit("rollback");
            reveal_strlit("rollback undo");
            reveal_strlit("console nuke");
        }
        let s = input.to_owned();
        let all = [
            ActionKind::Place,
            ActionKind::Undo,
            ActionKind::Overwrite,
            ActionKind::Rollback,
            ActionKind::RollbackUndo,
            ActionKind::Nuke,
        ];
        let mut i: usize = 0;
        while i < 6
            invariant
                s@ == input@,
                all@ == seq![
                    ActionKind::Place,
                    ActionKind::Undo,
                    ActionKind::Overwrite,
                    ActionKind::Rollback,
                    ActionKind::RollbackUndo,
                    ActionKind::Nuke,
                ],
                0 <= i <= 6,
                forall|j: int| 0 <= j < i ==> kind_name(all@[j]) != input@,
            decreases 6 - i,
        {
            let k = all[i];
            if k.to_string() == s {
                return Ok(k);
            }
            i = i + 1;
        }
        assert forall|k: ActionKind| kind_name(k) != input@ by {
            match k {
                ActionKind::Place => assert(kind_name(all@[0]) != input@),
                ActionKind::Undo => assert(kind_name(all@[1]) != input@),
                ActionKind::Overwrite => assert(kind_name(all@[2]) != input@),
                ActionKind::Rollback => assert(kind_name(all@[3]) != input@),
                ActionKind::RollbackUndo => assert(kind_name(all@[4]) != input@),
                ActionKind::Nuke => assert(kind_name(all@[5]) != input@),
            }
        }
        Err(())
    }
}

/// Why text is not an identifier.
#[derive(Debug, Clone, Copy, PartialEq, Eq, Structural)]
pub enum ParseIdentifierError {
    /// The text is empty.
    Empty,
    /// The text has this many characters, fitting neither form.
    InvalidLength(usize),
}

/// Whether `c` has Unicode's White_Space property: tab to carriage return,
/// space, next line, no-break space, ogham space mark, the spaces from en
/// quad to hair space, line and paragraph separators, narrow no-break space,
/// medium mathematical space and ideographic space.
pub open spec fn white_space(c: char) -> bool {
    ('\u{9}' <= c <= '\u{d}') || c == ' ' || c == '\u{85}' || c == '\u{a0}' || c == '\u{1680}'
        || ('\u{2000}' <= c <= '\u{200a}') || c == '\u{2028}' || c == '\u{2029}' || c == '\u{202f}'
        || c == '\u{205f}' || c == '\u{3000}'
}

/// Whether `c` is white space.
fn is_white(c: char) -> (r: bool)
    ensures
        r == white_space(c),
{
    ('\u{9}' <= c && c <= '\u{d}') || c == ' ' || c == '\u{85}' || c == '\u{a0}' || c == '\u{1680}'
        || ('\u{2000}' <= c && c <= '\u{200a}') || c == '\u{2028}' || c == '\u{2029}' || c
        == '\u{202f}' || c == '\u{205f}' || c == '\u{3000}'
}

/// How many characters at the start of `s` are not white space.
pub open spec fn word_len(s: Seq<char>) -> int
    decreases s.len(),
{
    if s.len() == 0 || white_space(s[0]) {
        0
    } else {
        1 + word_len(s.drop_first())
    }
}

/// The characters of a string.
pub(crate) fn chars_of(s: &str) -> (v: Vec<char>)
    ensures
        v@ == s@,
{
    broadcast use vstd::string::axiom_spec_iter, vstd::string::next_postcondition;

    let mut it = s.chars();
    let mut v: Vec<char> = Vec::new();
    loop
        invariant
            it.obeys_prophetic_iter_laws(),
            v@ + it.remaining() == s@,
            it.decrease() is Some,
        decreases it.decrease()->0,
    {
        let ghost before = it;
        match it.next() {
            Some(c) => {
                v.push(c);
                assert(v@ + it.remaining() =~= s@) by {
                    assert(before.remaining() =~= seq![c] + it.remaining());
                }
            },
            None => {
                assert(it.remaining().len() == 0);
                assert(v@ =~= s@);
                return v;
            },
        }
    }
}

impl Identifier {
    /// A copy of the identifier.
    pub fn duplicate(&self) -> (r: Identifier)
        ensures
            r == *self,
    {
        match self {
            Identifier::Hash(s) => Identifier::Hash(s.clone()),
            Identifier::Username(s) => Identifier::Username(s.clone()),
        }
    }

    /// Whether the identifier is a hashed key.
    pub fn is_key(&self) -> (r: bool)
        ensures
            r == (self is Hash),
    {
        match self {
            Identifier::Hash(_) => true,
            Identifier::Username(_) => false,
        }
    }

    /// Whether the identifier is a user name.
    pub fn is_username(&self) -> (r: bool)
        ensures
            r == (self is Username),
    {
        match self {
            Identifier::Hash(_) => false,
            Identifier::Username(_) => true,
        }
    }

    /// The identifier's text.
    pub fn get(&self) -> (r: &str)
        ensures
            r@ == (match self {
                Identifier::Hash(s) => s@,
                Identifier::Username(s) => s@,
            }),
    {
        match self {
            Identifier::Hash(s) => s.as_str(),
            Identifier::Username(s) => s.as_str(),
        }
    }

    /// The identifier's text, owned.
    pub fn to_string(&self) -> (r: String)
        ensures
            r@ == (match self {
                Identifier::Hash(s) => s@,
                Identifier::Username(s) => s@,
            }),
    {
        self.get().to_owned()
    }

    /// Reads a whole text as an identifier: a user name is 32 characters
    /// with no white space, and a key is any other 64 characters.
    pub fn try_from(input: &str) -> (r: Result<Identifier, ParseIdentifierError>)
        ensures
            r matches Ok(Identifier::Username(u)) ==> u@ == input@,
            r matches Ok(Identifier::Hash(h)) ==> h@ == input@,
            r is Ok && r->Ok_0 is Username <==> word_len(input@) == 32 && input@.len() == 32,
            r is Ok && r->Ok_0 is Hash <==> word_len(input@) != 32 && input@.len() == 64,
            r == Err::<Identifier, ParseIdentifierError>(ParseIdentifierError::Empty) <==> input@.len() == 0,
            r matches Err(ParseIdentifierError::InvalidLength(n)) ==> n == input@.len(),
    {
        let cs = chars_of(input);
        let n = cs.len();
        if n == 0 {
            return Err(ParseIdentifierError::Empty);
        }
        let mut k: usize = 0;
        assert(cs@.subrange(0, n as int) =~= cs@);
        while k < n && !is_white(cs[k])
            invariant
                0 <= k <= n,
                n == cs@.len(),
                cs@ == input@,
                word_len(cs@) == k + word_len(cs@.subrange(k as int, n as int)),
            decreases n - k,
        {
            proof {
                assert(cs@.subrange(k as int, n as int).drop_first() =~= cs@.subrange(k + 1, n as int));
            }
            k = k + 1;
        }
        proof {
            let rest = cs@.subrange(k as int, n as int);
            if k < n {
                assert(rest[0] == cs@[k as int]);
            }
        }
        if k == 32 && n == 32 {
            Ok(Identifier::Username(input.to_owned()))
        } else if k != 32 && n == 64 {
            Ok(Identifier::Hash(input.to_owned()))
        } else {
            Err(ParseIdentifierError::InvalidLength(n))
        }
    }
}

} // verus!
