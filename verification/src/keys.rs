//! Key chords: a symbolic key code plus an exact set of held modifiers,
//! parsed from `"+"`-joined token strings such as `"ctrl+a"` or `"F5"`.
//!
//! Key codes use the X keysym numbering, which is what the compositor
//! delivers with every key event.
use vstd::prelude::*;
use vstd::string::*;

verus! {

/// The keysym value that stands for "no symbol".
pub const KEYSYM_NO_SYMBOL: u32 = 0;

/// The X keysym for the Escape key.
pub const KEYSYM_ESCAPE: u32 = 0xff1b;

/// The X keysym for the F1 key; F1 through F24 are consecutive.
pub const KEYSYM_F1: u32 = 0xffbe;

/// The exact set of modifiers held together with a key press.
/// Equality is exact-set match: a chord requiring only Ctrl does not
/// match Ctrl+Alt held.
#[derive(Clone, Copy, Debug, PartialEq, Eq, Hash, Structural)]
pub struct ModifierState {
    pub mod_ctrl: bool,
    pub mod_alt: bool,
    pub mod_mod4: bool,
}

/// The modifier set with nothing held.
pub open spec fn mod_none() -> ModifierState {
    ModifierState { mod_ctrl: false, mod_alt: false, mod_mod4: false }
}

impl Default for ModifierState {
    fn default() -> (r: Self)
        ensures
            r == mod_none(),
    {
        ModifierState { mod_ctrl: false, mod_alt: false, mod_mod4: false }
    }
}

impl ModifierState {
    /// The modifier set observed from a compositor modifier update: ctrl,
    /// alt and the logo (Super) key are taken; shift and the lock keys are
    /// ignored.
    pub fn from_held(ctrl: bool, alt: bool, logo: bool) -> (r: ModifierState)
        ensures
            r == (ModifierState { mod_ctrl: ctrl, mod_alt: alt, mod_mod4: logo }),
    {
        ModifierState { mod_ctrl: ctrl, mod_alt: alt, mod_mod4: logo }
    }
}

/// One accepted key: a keysym, the token string it was written as, and the
/// exact modifier set it requires.
#[derive(Clone, Debug, PartialEq, Eq, Hash)]
pub struct SingleKey {
    pub keysym: u32,
    pub repr: String,
    pub modifiers: ModifierState,
}

/// A chord: one or more accepted alternatives; it matches an observed
/// (keysym, modifier-set) pair if any alternative equals it exactly.
#[derive(Clone, Debug)]
pub struct Key {
    any_of: Vec<SingleKey>,
}

/// Errors raised when a chord token string fails to parse; fatal at
/// configuration load time, so matching never sees an invalid chord.
#[derive(Clone, Debug, PartialEq, Eq)]
pub enum ParseError {
    /// The base key token is not a single character or an F1..F24 name.
    InvalidKey { token: String },
    /// A leading component is not one of ctrl, alt, mod4 or logo.
    UnknownModifier { token: String },
}

// ---------------------------------------------------------------------------
// What a token string parses to.
// ---------------------------------------------------------------------------

/// The keysym that stands for a single character; named after the fact,
/// computed by the keysym table, and depending on the character alone.
pub uninterp spec fn keysym_of_char(c: char) -> u32;

/// The character is printable Latin-1: such characters are their own
/// keysyms.
pub open spec fn is_printable_latin1(c: char) -> bool {
    (0x20 <= c as u32 && c as u32 <= 0x7e) || (0xa0 <= c as u32 && c as u32 <= 0xff)
}

/// Relies on xkeysym's `Keysym::from_char` (the table mapping characters to
/// X keysyms): the result depends on the character alone, and printable
/// Latin-1 characters map to their own code points.
#[verifier::external_body]
fn keysym_from_char(c: char) -> (r: u32)
    ensures
        r == keysym_of_char(c),
        is_printable_latin1(c) ==> r == c as u32,
{
    xkeysym::Keysym::from_char(c).raw()
}

/// The keysym of one character, by the keysym table. Re-exposes what the
/// table call guarantees: printable Latin-1 characters are their own
/// keysyms.
pub fn char_keysym(c: char) -> (r: u32)
    ensures
        r == keysym_of_char(c),
        is_printable_latin1(c) ==> r == c as u32,
{
    keysym_from_char(c)
}

/// Lower-cases an ASCII letter's code point and leaves everything else as is.
pub open spec fn lower_code(c: char) -> int {
    if 0x41 <= c as u32 && c as u32 <= 0x5a {
        c as u32 + 0x20
    } else {
        (c as u32) as int
    }
}

/// The token names the Ctrl modifier (ASCII case-insensitive).
pub open spec fn is_ctrl_name(t: Seq<char>) -> bool {
    t.len() == 4 && lower_code(t[0]) == 'c' as u32 && lower_code(t[1]) == 't' as u32
        && lower_code(t[2]) == 'r' as u32 && lower_code(t[3]) == 'l' as u32
}

/// The token names the Alt modifier (ASCII case-insensitive).
pub open spec fn is_alt_name(t: Seq<char>) -> bool {
    t.len() == 3 && lower_code(t[0]) == 'a' as u32 && lower_code(t[1]) == 'l' as u32
        && lower_code(t[2]) == 't' as u32
}

/// The token names the Super modifier as "mod4" (ASCII case-insensitive).
pub open spec fn is_mod4_name(t: Seq<char>) -> bool {
    t.len() == 4 && lower_code(t[0]) == 'm' as u32 && lower_code(t[1]) == 'o' as u32
        && lower_code(t[2]) == 'd' as u32 && lower_code(t[3]) == '4' as u32
}

/// The token names the Super modifier as "logo" (ASCII case-insensitive).
pub open spec fn is_logo_name(t: Seq<char>) -> bool {
    t.len() == 4 && lower_code(t[0]) == 'l' as u32 && lower_code(t[1]) == 'o' as u32
        && lower_code(t[2]) == 'g' as u32 && lower_code(t[3]) == 'o' as u32
}

/// The token is a recognized modifier name.
pub open spec fn mod_name_known(t: Seq<char>) -> bool {
    is_ctrl_name(t) || is_alt_name(t) || is_mod4_name(t) || is_logo_name(t)
}

/// The modifier set `m` with the modifier named by `t` added.
pub open spec fn apply_mod(m: ModifierState, t: Seq<char>) -> ModifierState {
    if is_ctrl_name(t) {
        ModifierState { mod_ctrl: true, ..m }
    } else if is_alt_name(t) {
        ModifierState { mod_alt: true, ..m }
    } else {
        ModifierState { mod_mod4: true, ..m }
    }
}

/// The F-key number written by the digits `d` (canonical decimal, 1..=24),
/// or -1 if `d` is not such a number.
pub open spec fn fkey_num(d: Seq<char>) -> int {
    if d.len() == 1 && '1' as u32 <= d[0] as u32 && d[0] as u32 <= '9' as u32 {
        d[0] as u32 - 0x30
    } else if d.len() == 2 && d[0] as u32 == '1' as u32 && '0' as u32 <= d[1] as u32 && d[1]
        as u32 <= '9' as u32 {
        10 + d[1] as u32 - 0x30
    } else if d.len() == 2 && d[0] as u32 == '2' as u32 && '0' as u32 <= d[1] as u32 && d[1]
        as u32 <= '4' as u32 {
        20 + d[1] as u32 - 0x30
    } else {
        -1
    }
}

/// The keysym a base-key token resolves to: a single character maps through
/// the keysym table, with an ASCII capital letter folded to its lower-case
/// keysym first (so "A" and "a" name one chord), and a multi-character
/// token must be an F1..F24 name (case-insensitive); anything else is
/// invalid.
pub open spec fn to_keysym_spec(t: Seq<char>) -> Option<u32> {
    if t.len() == 1 {
        if 0x41 <= t[0] as u32 && t[0] as u32 <= 0x5a {
            Some((t[0] as u32 + 0x20) as u32)
        } else if is_printable_latin1(t[0]) {
            Some(t[0] as u32)
        } else if keysym_of_char(t[0]) == KEYSYM_NO_SYMBOL {
            None
        } else {
            Some(keysym_of_char(t[0]))
        }
    } else if t.len() >= 2 && (t[0] == 'F' || t[0] == 'f') && 1 <= fkey_num(
        t.subrange(1, t.len() as int),
    ) {
        Some((KEYSYM_F1 - 1 + fkey_num(t.subrange(1, t.len() as int))) as u32)
    } else {
        None
    }
}

/// The position of the first '+' in `s`, or -1 if there is none.
pub open spec fn first_plus(s: Seq<char>) -> int
    decreases s.len(),
{
    if s.len() == 0 {
        -1
    } else if s[0] == '+' {
        0
    } else if first_plus(s.drop_first()) == -1 {
        -1
    } else {
        1 + first_plus(s.drop_first())
    }
}

/// The position of the last '+' in `s`, or -1 if there is none.
pub open spec fn last_plus(s: Seq<char>) -> int
    decreases s.len(),
{
    if s.len() == 0 {
        -1
    } else if s[s.len() - 1] == '+' {
        s.len() - 1
    } else {
        last_plus(s.drop_last())
    }
}

/// The modifier set written by the '+'-joined components of `s`, or the
/// first component that is not a recognized modifier name.
pub open spec fn parse_mods(s: Seq<char>) -> Result<ModifierState, Seq<char>>
    decreases s.len(),
{
    let i = first_plus(s);
    if i < 0 || i >= s.len() {
        if mod_name_known(s) {
            Ok(apply_mod(mod_none(), s))
        } else {
            Err(s)
        }
    } else {
        let head = s.subrange(0, i);
        if !mod_name_known(head) {
            Err(head)
        } else {
            match parse_mods(s.subrange(i + 1, s.len() as int)) {
                Ok(m) => Ok(apply_mod(m, head)),
                Err(t) => Err(t),
            }
        }
    }
}

/// What a whole token string parses to: the keysym and modifier set on
/// success, or the offending token on failure (`true` marks an invalid base
/// key, `false` an unknown modifier). The last '+'-separated component is
/// the base key, the earlier ones are modifier names, and the literal token
/// "+" is the plus key with no modifiers.
pub open spec fn parse_spec(s: Seq<char>) -> Result<(u32, ModifierState), (bool, Seq<char>)> {
    if s.len() == 1 && s[0] == '+' {
        Ok(('+' as u32, mod_none()))
    } else {
        let lp = last_plus(s);
        let key = s.subrange(lp + 1, s.len() as int);
        match to_keysym_spec(key) {
            None => Err((true, key)),
            Some(ks) => if lp < 0 {
                Ok((ks, mod_none()))
            } else {
                match parse_mods(s.subrange(0, lp)) {
                    Ok(m) => Ok((ks, m)),
                    Err(t) => Err((false, t)),
                }
            },
        }
    }
}

/// The token string parses successfully.
pub open spec fn parse_ok(s: Seq<char>) -> bool {
    parse_spec(s) is Ok
}

/// The keysym a valid token string parses to.
pub open spec fn parse_key(s: Seq<char>) -> u32 {
    match parse_spec(s) {
        Ok(p) => p.0,
        Err(_) => KEYSYM_NO_SYMBOL,
    }
}

/// The modifier set a valid token string parses to.
pub open spec fn parse_modifiers(s: Seq<char>) -> ModifierState {
    match parse_spec(s) {
        Ok(p) => p.1,
        Err(_) => mod_none(),
    }
}

/// The parse error `e` is the one that `parse_spec` assigns to `s`.
pub open spec fn parse_error_matches(e: ParseError, s: Seq<char>) -> bool {
    match parse_spec(s) {
        Ok(_) => false,
        Err((bad_key, tok)) => match e {
            ParseError::InvalidKey { token } => bad_key && token@ == tok,
            ParseError::UnknownModifier { token } => !bad_key && token@ == tok,
        },
    }
}

// ---------------------------------------------------------------------------
// Matching.
// ---------------------------------------------------------------------------

/// One alternative equals the observed (keysym, modifier-set) pair exactly.
pub open spec fn single_matches(k: SingleKey, sym: u32, mods: ModifierState) -> bool {
    k.modifiers == mods && k.keysym == sym
}

/// Some alternative in `alts` equals the observed pair exactly.
pub open spec fn alts_match(alts: Seq<SingleKey>, sym: u32, mods: ModifierState) -> bool {
    exists|i: int| 0 <= i < alts.len() && single_matches(#[trigger] alts[i], sym, mods)
}

/// The separator placed between alternatives in a chord's display text.
pub open spec fn sep_seq() -> Seq<char> {
    seq![' ', '|', ' ']
}

/// The display text of a list of alternatives: their token strings joined
/// with " | ".
pub open spec fn joined(alts: Seq<SingleKey>) -> Seq<char>
    decreases alts.len(),
{
    if alts.len() == 0 {
        Seq::empty()
    } else if alts.len() == 1 {
        alts[0].repr@
    } else {
        alts[0].repr@ + sep_seq() + joined(alts.drop_first())
    }
}

proof fn lemma_joined_snoc(alts: Seq<SingleKey>)
    requires
        alts.len() >= 2,
    ensures
        joined(alts) == joined(alts.drop_last()) + sep_seq() + alts.last().repr@,
    decreases alts.len(),
{
    if alts.len() == 2 {
        assert(alts.drop_first().len() == 1);
        assert(alts.drop_last().len() == 1);
        assert(alts.drop_first()[0] == alts.last());
        assert(alts.drop_last()[0] == alts[0]);
        assert(joined(alts.drop_last()) + sep_seq() + alts.last().repr@ == alts[0].repr@
            + sep_seq() + joined(alts.drop_first()));
    } else {
        lemma_joined_snoc(alts.drop_first());
        assert(alts.drop_first().drop_last() =~= alts.drop_last().drop_first());
        assert(alts.drop_first().last() == alts.last());
        assert(alts.drop_last()[0] == alts[0]);
        assert(alts.drop_last().len() >= 2);
        assert(joined(alts.drop_last()) == alts[0].repr@ + sep_seq() + joined(
            alts.drop_last().drop_first(),
        ));
        assert(joined(alts) == alts[0].repr@ + sep_seq() + (joined(alts.drop_first().drop_last())
            + sep_seq() + alts.last().repr@));
    }
}

impl Key {
    /// The chord's alternatives, in configuration order.
    pub closed spec fn alts(self) -> Seq<SingleKey> {
        self.any_of@
    }

    /// A chord with a single accepted alternative.
    pub fn from_single(value: SingleKey) -> (r: Key)
        ensures
            r.alts() == seq![value],
    {
        let any_of = vec![value];
        proof {
            assert(any_of@ =~= seq![value]);
        }
        Key { any_of }
    }

    /// A chord accepting any of the given alternatives, in order.
    pub fn from_alternatives(any_of: Vec<SingleKey>) -> (r: Key)
        ensures
            r.alts() == any_of@,
    {
        Key { any_of }
    }

    /// Whether the observed (keysym, modifier-set) pair equals one of the
    /// chord's alternatives exactly.
    pub fn matches(&self, sym: u32, modifiers: ModifierState) -> (r: bool)
        ensures
            r == alts_match(self.alts(), sym, modifiers),
    {
        let mut i: usize = 0;
        while i < self.any_of.len()
            invariant
                i <= self.any_of@.len(),
                forall|j: int|
                    0 <= j < i ==> !single_matches(#[trigger] self.any_of@[j], sym, modifiers),
            decreases self.any_of@.len() - i,
        {
            if self.any_of[i].modifiers == modifiers && self.any_of[i].keysym == sym {
                return true;
            }
            i += 1;
        }
        false
    }

    /// The chord's display text: the alternatives' token strings joined
    /// with " | ".
    pub fn display_text(&self) -> (r: String)
        ensures
            r@ == joined(self.alts()),
    {
        let n = self.any_of.len();
        let mut out = String::new();
        let mut i: usize = 0;
        while i < n
            invariant
                i <= n,
                n == self.any_of@.len(),
                out@ == joined(self.any_of@.take(i as int)),
            decreases n - i,
        {
            if i > 0 {
                out.append(" | ");
            }
            out.append(self.any_of[i].repr.as_str());
            proof {
                reveal_strlit(" | ");
                let t = self.any_of@.take(i as int + 1);
                assert(t.drop_last() =~= self.any_of@.take(i as int));
                assert(t.last() == self.any_of@[i as int]);
                if i == 0 {
                    assert(t.len() == 1);
                    assert(t[0] == self.any_of@[0]);
                    assert(out@ == joined(t));
                } else {
                    lemma_joined_snoc(t);
                    assert((" | ")@ =~= sep_seq());
                    assert(out@ == joined(t));
                }
            }
            i += 1;
        }
        proof {
            assert(self.any_of@.take(n as int) =~= self.any_of@);
        }
        out
    }
}

// ---------------------------------------------------------------------------
// Parsing, executable.
// ---------------------------------------------------------------------------

/// The characters of `s`, one vector element per character.
fn char_vec(s: &str) -> (r: Vec<char>)
    ensures
        r@ == s@,
{
    let n = s.unicode_len();
    let mut v: Vec<char> = Vec::new();
    let mut i: usize = 0;
    while i < n
        invariant
            n == s@.len(),
            i <= n,
            v@ == s@.take(i as int),
        decreases n - i,
    {
        let c = s.get_char(i);
        v.push(c);
        proof {
            assert(v@ =~= s@.take(i as int + 1));
        }
        i += 1;
    }
    proof {
        assert(v@ =~= s@);
    }
    v
}

/// Relies on `String::push`: appends exactly one character.
#[verifier::external_body]
fn push_char(s: &mut String, c: char)
    ensures
        final(s)@ == old(s)@.push(c),
{
    s.push(c);
}

/// The substring `v[start..end)` as an owned string.
fn token_string(v: &Vec<char>, start: usize, end: usize) -> (r: String)
    requires
        start <= end <= v@.len(),
    ensures
        r@ == v@.subrange(start as int, end as int),
{
    let mut s = String::new();
    let mut i: usize = start;
    while i < end
        invariant
            start <= i <= end <= v@.len(),
            s@ == v@.subrange(start as int, i as int),
        decreases end - i,
    {
        push_char(&mut s, v[i]);
        proof {
            assert(s@ =~= v@.subrange(start as int, i as int + 1));
        }
        i += 1;
    }
    s
}

proof fn lemma_last_plus_at(s: Seq<char>, p: int)
    requires
        0 <= p < s.len(),
        s[p] == '+',
        forall|j: int| p < j < s.len() ==> s[j] != '+',
    ensures
        last_plus(s) == p,
    decreases s.len(),
{
    if p == s.len() - 1 {
    } else {
        assert(s[s.len() - 1] != '+');
        lemma_last_plus_at(s.drop_last(), p);
    }
}

proof fn lemma_last_plus_none(s: Seq<char>)
    requires
        forall|j: int| 0 <= j < s.len() ==> s[j] != '+',
    ensures
        last_plus(s) == -1,
    decreases s.len(),
{
    if s.len() > 0 {
        lemma_last_plus_none(s.drop_last());
    }
}

proof fn lemma_first_plus_at(s: Seq<char>, p: int)
    requires
        0 <= p < s.len(),
        s[p] == '+',
        forall|j: int| 0 <= j < p ==> s[j] != '+',
    ensures
        first_plus(s) == p,
    decreases s.len(),
{
    if p == 0 {
    } else {
        assert(s[0] != '+');
        assert(forall|j: int| 0 <= j < p - 1 ==> s.drop_first()[j] != '+');
        lemma_first_plus_at(s.drop_first(), p - 1);
    }
}

proof fn lemma_first_plus_none(s: Seq<char>)
    requires
        forall|j: int| 0 <= j < s.len() ==> s[j] != '+',
    ensures
        first_plus(s) == -1,
    decreases s.len(),
{
    if s.len() > 0 {
        assert(forall|j: int| 0 <= j < s.len() - 1 ==> s.drop_first()[j] != '+');
        lemma_first_plus_none(s.drop_first());
    }
}

/// The last position of '+' in `v`, if any.
fn find_last_plus(v: &Vec<char>) -> (r: Option<usize>)
    ensures
        match r {
            Some(p) => last_plus(v@) == p as int && p < v@.len(),
            None => last_plus(v@) == -1,
        },
{
    let mut i: usize = v.len();
    while i > 0
        invariant
            i <= v@.len(),
            forall|j: int| i <= j < v@.len() ==> v@[j] != '+',
        decreases i,
    {
        i = i - 1;
        if v[i] == '+' {
            proof {
                lemma_last_plus_at(v@, i as int);
            }
            return Some(i);
        }
    }
    proof {
        lemma_last_plus_none(v@);
    }
    None
}

/// The lower-cased code point of the character at `i`.
fn lower_at(v: &Vec<char>, i: usize) -> (r: u32)
    requires
        i < v@.len(),
    ensures
        r == lower_code(v@[i as int]),
{
    let u = v[i] as u32;
    if 0x41 <= u && u <= 0x5a {
        u + 0x20
    } else {
        u
    }
}

enum ModKind {
    Ctrl,
    Alt,
    Mod4,
}

/// Which modifier the token `v[start..end)` names, if any.
fn mod_name_kind(v: &Vec<char>, start: usize, end: usize) -> (r: Option<ModKind>)
    requires
        start <= end <= v@.len(),
    ensures
        ({
            let t = v@.subrange(start as int, end as int);
            match r {
                Some(ModKind::Ctrl) => is_ctrl_name(t),
                Some(ModKind::Alt) => is_alt_name(t),
                Some(ModKind::Mod4) => is_mod4_name(t) || is_logo_name(t),
                None => !mod_name_known(t),
            }
        }),
{
    let ghost t = v@.subrange(start as int, end as int);
    let n = end - start;
    if n == 4 && lower_at(v, start) == 'c' as u32 && lower_at(v, start + 1) == 't' as u32
        && lower_at(v, start + 2) == 'r' as u32 && lower_at(v, start + 3) == 'l' as u32 {
        Some(ModKind::Ctrl)
    } else if n == 3 && lower_at(v, start) == 'a' as u32 && lower_at(v, start + 1) == 'l' as u32
        && lower_at(v, start + 2) == 't' as u32 {
        Some(ModKind::Alt)
    } else if n == 4 && lower_at(v, start) == 'm' as u32 && lower_at(v, start + 1) == 'o' as u32
        && lower_at(v, start + 2) == 'd' as u32 && lower_at(v, start + 3) == '4' as u32 {
        Some(ModKind::Mod4)
    } else if n == 4 && lower_at(v, start) == 'l' as u32 && lower_at(v, start + 1) == 'o' as u32
        && lower_at(v, start + 2) == 'g' as u32 && lower_at(v, start + 3) == 'o' as u32 {
        Some(ModKind::Mod4)
    } else {
        None
    }
}

/// Parses the '+'-joined modifier components in `v[start..end)`, mirroring
/// `parse_mods`.
fn parse_mods_exec(v: &Vec<char>, start: usize, end: usize) -> (r: Result<ModifierState, String>)
    requires
        start <= end <= v@.len(),
    ensures
        ({
            let t = v@.subrange(start as int, end as int);
            match r {
                Ok(m) => parse_mods(t) == Ok::<ModifierState, Seq<char>>(m),
                Err(tok) => parse_mods(t) matches Err(et) && tok@ == et,
            }
        }),
    decreases end - start,
{
    let ghost t = v@.subrange(start as int, end as int);
    let mut i: usize = start;
    while i < end && v[i] != '+'
        invariant
            start <= i <= end <= v@.len(),
            forall|j: int| start <= j < i ==> v@[j] != '+',
        decreases end - i,
    {
        i += 1;
    }
    if i == end {
        proof {
            assert(forall|j: int| 0 <= j < t.len() ==> t[j] != '+');
            lemma_first_plus_none(t);
        }
        match mod_name_kind(v, start, end) {
            Some(ModKind::Ctrl) => Ok(ModifierState { mod_ctrl: true, ..ModifierState::default() }),
            Some(ModKind::Alt) => Ok(ModifierState { mod_alt: true, ..ModifierState::default() }),
            Some(ModKind::Mod4) => Ok(ModifierState { mod_mod4: true, ..ModifierState::default() }),
            None => Err(token_string(v, start, end)),
        }
    } else {
        proof {
            assert(t[i - start] == v@[i as int]);
            assert(forall|j: int| 0 <= j < i - start ==> t[j] != '+');
            lemma_first_plus_at(t, i - start);
            assert(t.subrange(0, i - start) =~= v@.subrange(start as int, i as int));
            assert(t.subrange(i - start + 1, t.len() as int) =~= v@.subrange(
                i as int + 1,
                end as int,
            ));
        }
        match mod_name_kind(v, start, i) {
            None => Err(token_string(v, start, i)),
            Some(kind) => {
                match parse_mods_exec(v, i + 1, end) {
                    Err(tok) => Err(tok),
                    Ok(m) => {
                        let m2 = match kind {
                            ModKind::Ctrl => ModifierState { mod_ctrl: true, ..m },
                            ModKind::Alt => ModifierState { mod_alt: true, ..m },
                            ModKind::Mod4 => ModifierState { mod_mod4: true, ..m },
                        };
                        Ok(m2)
                    },
                }
            },
        }
    }
}

/// Resolves a base-key token `v[start..end)` to a keysym, mirroring
/// `to_keysym_spec`: one character maps through the keysym table, several
/// characters must name F1..F24 (case-insensitive).
fn to_keysym(v: &Vec<char>, start: usize, end: usize) -> (r: Option<u32>)
    requires
        start <= end <= v@.len(),
    ensures
        r == to_keysym_spec(v@.subrange(start as int, end as int)),
{
    let ghost t = v@.subrange(start as int, end as int);
    let n = end - start;
    if n == 1 {
        let c = v[start];
        let u = c as u32;
        proof {
            assert(t[0] == v@[start as int]);
        }
        if 0x41 <= u && u <= 0x5a {
            return Some(u + 0x20);
        }
        let ks = keysym_from_char(c);
        if ks == KEYSYM_NO_SYMBOL {
            None
        } else {
            Some(ks)
        }
    } else if n >= 2 {
        let c0 = v[start];
        proof {
            assert(t[0] == v@[start as int]);
            assert(t.subrange(1, t.len() as int) =~= v@.subrange(start as int + 1, end as int));
        }
        if !(c0 == 'F' || c0 == 'f') {
            return None;
        }
        let ghost d = t.subrange(1, t.len() as int);
        if n == 2 {
            let u1 = v[start + 1] as u32;
            proof {
                assert(d[0] == v@[start as int + 1]);
            }
            if 0x31 <= u1 && u1 <= 0x39 {
                Some(KEYSYM_F1 - 1 + (u1 - 0x30))
            } else {
                None
            }
        } else if n == 3 {
            let u1 = v[start + 1] as u32;
            let u2 = v[start + 2] as u32;
            proof {
                assert(d[0] == v@[start as int + 1]);
                assert(d[1] == v@[start as int + 2]);
            }
            if u1 == 0x31 && 0x30 <= u2 && u2 <= 0x39 {
                Some(KEYSYM_F1 - 1 + (10 + u2 - 0x30))
            } else if u1 == 0x32 && 0x30 <= u2 && u2 <= 0x34 {
                Some(KEYSYM_F1 - 1 + (20 + u2 - 0x30))
            } else {
                None
            }
        } else {
            None
        }
    } else {
        None
    }
}

impl SingleKey {
    /// Parses a chord token string: the last '+'-separated component is the
    /// base key, the earlier components are modifier names (ASCII
    /// case-insensitive; "logo" is the same as "mod4"), and the literal
    /// token "+" is the plus key with no modifiers. An ASCII capital letter
    /// as base key is folded to lower case, so "ctrl+a" and "Ctrl+A" parse
    /// to the same chord. Invalid strings fail here, at configuration load
    /// time, never at match time.
    pub fn from_str(s: &str) -> (r: Result<SingleKey, ParseError>)
        ensures
            r is Ok <==> parse_ok(s@),
            r matches Ok(k) ==> k.keysym == parse_key(s@) && k.modifiers == parse_modifiers(s@)
                && k.repr@ == s@,
            r matches Err(e) ==> parse_error_matches(e, s@),
    {
        let v = char_vec(s);
        let n = v.len();
        if n == 1 && v[0] == '+' {
            let ks = keysym_from_char('+');
            return Ok(SingleKey {
                keysym: ks,
                repr: s.to_owned(),
                modifiers: ModifierState::default(),
            });
        }
        let (key_start, mods_end): (usize, Option<usize>) = match find_last_plus(&v) {
            None => (0, None),
            Some(p) => (p + 1, Some(p)),
        };
        proof {
            assert(v@.subrange(key_start as int, n as int) =~= s@.subrange(
                last_plus(s@) + 1,
                s@.len() as int,
            ));
        }
        match to_keysym(&v, key_start, n) {
            None => Err(ParseError::InvalidKey { token: token_string(&v, key_start, n) }),
            Some(ks) => match mods_end {
                None => Ok(SingleKey {
                    keysym: ks,
                    repr: s.to_owned(),
                    modifiers: ModifierState::default(),
                }),
                Some(p) => {
                    proof {
                        assert(v@.subrange(0, p as int) =~= s@.subrange(0, last_plus(s@)));
                    }
                    match parse_mods_exec(&v, 0, p) {
                        Ok(m) => Ok(SingleKey { keysym: ks, repr: s.to_owned(), modifiers: m }),
                        Err(tok) => Err(ParseError::UnknownModifier { token: tok }),
                    }
                },
            },
        }
    }
}

// ---------------------------------------------------------------------------
// Laws.
// ---------------------------------------------------------------------------

/// A chord built from a successfully parsed token matches exactly the
/// (keysym, modifier-set) pair it was parsed from: matching that pair
/// succeeds, and matching the same keysym under any other modifier set
/// fails.
pub proof fn lemma_parse_then_match(s: Seq<char>, k: SingleKey, other: ModifierState)
    requires
        parse_ok(s),
        k.keysym == parse_key(s),
        k.modifiers == parse_modifiers(s),
        other != parse_modifiers(s),
    ensures
        single_matches(k, parse_key(s), parse_modifiers(s)),
        alts_match(seq![k], parse_key(s), parse_modifiers(s)),
        !alts_match(seq![k], parse_key(s), other),
{
    assert(seq![k][0] == k);
    assert(forall|i: int| 0 <= i < seq![k].len() ==> #[trigger] seq![k][i] == k);
}

} // verus!
