//! Validation of global-shortcut combinations such as `Ctrl+Alt+Space`.
//!
//! A combination is a `+`-separated list of tokens; the last token is the
//! main key and all others are modifiers (Alt / Ctrl / Shift / Super and their
//! aliases, case-insensitive). Combinations that the system reserves (input
//! method switching, task switching, ...) are refused.

use vstd::prelude::*;

use crate::text::{
    append_chars, append_str, chars_of, is_str, lower, lower_vec, same_chars, split_char, split_vec,
    string_of, trim, trim_vec, views,
};

verus! {

/// Why a shortcut combination was refused.
#[derive(Debug, Clone, PartialEq, Eq)]
pub enum ShortcutError {
    /// Not of the form `Mod+Key`.
    InvalidFormat,
    /// A lone main key without any modifier.
    MissingModifier,
    /// A modifier position holds an unknown name.
    UnknownToken(String),
    /// The combination is reserved by the system.
    SystemReserved(String),
    /// There is no main key.
    MissingKey,
}

/// Mathematical form of a validation outcome.
pub enum ShortcutVerdict {
    Accepted,
    InvalidFormat,
    MissingModifier,
    UnknownToken(Seq<char>),
    SystemReserved(Seq<char>),
    MissingKey,
}

/// The outcome a `Result<(), ShortcutError>` stands for.
pub open spec fn verdict_of(r: Result<(), ShortcutError>) -> ShortcutVerdict {
    match r {
        Ok(()) => ShortcutVerdict::Accepted,
        Err(ShortcutError::InvalidFormat) => ShortcutVerdict::InvalidFormat,
        Err(ShortcutError::MissingModifier) => ShortcutVerdict::MissingModifier,
        Err(ShortcutError::UnknownToken(t)) => ShortcutVerdict::UnknownToken(t@),
        Err(ShortcutError::SystemReserved(c)) => ShortcutVerdict::SystemReserved(c@),
        Err(ShortcutError::MissingKey) => ShortcutVerdict::MissingKey,
    }
}

/// The non-empty trimmed pieces among `pieces`, in order.
pub open spec fn nonblank(pieces: Seq<Seq<char>>) -> Seq<Seq<char>>
    decreases pieces.len(),
{
    if pieces.len() == 0 {
        Seq::<Seq<char>>::empty()
    } else {
        let r = nonblank(pieces.drop_last());
        let t = trim(pieces.last());
        if t.len() > 0 {
            r.push(t)
        } else {
            r
        }
    }
}

/// The tokens of a combination: its `+`-separated pieces, trimmed, blanks dropped.
pub open spec fn tokens(c: Seq<char>) -> Seq<Seq<char>> {
    nonblank(split_char(c, '+'))
}

/// Modifier slot of a lower-cased token: 0 alt, 1 ctrl, 2 shift, 3 super; 4 for no modifier.
pub open spec fn modifier_slot(t: Seq<char>) -> int {
    if t == "alt"@ {
        0
    } else if t == "ctrl"@ || t == "control"@ {
        1
    } else if t == "shift"@ {
        2
    } else if t == "super"@ || t == "meta"@ || t == "cmd"@ || t == "win"@ {
        3
    } else {
        4
    }
}

/// Whether a token names a modifier (case-insensitive).
pub open spec fn is_modifier(t: Seq<char>) -> bool {
    modifier_slot(lower(t)) < 4
}

/// Modifier flags and main key after reading `toks` left to right.
pub open spec fn norm_state(toks: Seq<Seq<char>>) -> (bool, bool, bool, bool, Seq<char>)
    decreases toks.len(),
{
    if toks.len() == 0 {
        (false, false, false, false, Seq::<char>::empty())
    } else {
        let s = norm_state(toks.drop_last());
        let t = lower(toks.last());
        let k = modifier_slot(t);
        if k == 0 {
            (true, s.1, s.2, s.3, s.4)
        } else if k == 1 {
            (s.0, true, s.2, s.3, s.4)
        } else if k == 2 {
            (s.0, s.1, true, s.3, s.4)
        } else if k == 3 {
            (s.0, s.1, s.2, true, s.4)
        } else {
            (s.0, s.1, s.2, s.3, t)
        }
    }
}

pub open spec fn flag(b: bool, s: Seq<char>) -> Seq<char> {
    if b {
        s
    } else {
        Seq::<char>::empty()
    }
}

/// Canonical form of a combination: modifiers in the fixed order Alt, Ctrl,
/// Shift, Super, then the (lower-cased) main key.
pub open spec fn canonical_combo(c: Seq<char>) -> Seq<char> {
    let s = norm_state(tokens(c));
    flag(s.0, "Alt+"@) + flag(s.1, "Ctrl+"@) + flag(s.2, "Shift+"@) + flag(s.3, "Super+"@) + s.4
}

/// The system-reserved combinations.
pub open spec fn reserved_combos() -> Seq<Seq<char>> {
    seq![
        "Ctrl+Space"@,
        "Alt+Shift"@,
        "Ctrl+Shift"@,
        "Win+Space"@,
        "Win+L"@,
        "Win+R"@,
        "Win+E"@,
        "Win+D"@,
        "Alt+Tab"@,
        "Ctrl+Esc"@,
        "Win"@,
    ]
}

/// Whether `c` is, up to modifier order, aliases and case, a reserved combination.
pub open spec fn is_reserved(c: Seq<char>) -> bool {
    exists|j: int|
        0 <= j < reserved_combos().len() && #[trigger] canonical_combo(reserved_combos()[j])
            == canonical_combo(c)
}

/// The first token among `mods` that is not a modifier.
pub open spec fn first_unknown(mods: Seq<Seq<char>>) -> Option<Seq<char>>
    decreases mods.len(),
{
    if mods.len() == 0 {
        None
    } else if !is_modifier(mods[0]) {
        Some(mods[0])
    } else {
        first_unknown(mods.subrange(1, mods.len() as int))
    }
}

/// What validating `input` yields.
pub open spec fn shortcut_verdict(input: Seq<char>) -> ShortcutVerdict {
    let c = trim(input);
    let parts = tokens(c);
    if c.len() == 0 {
        ShortcutVerdict::InvalidFormat
    } else if lower(c) == "win"@ {
        ShortcutVerdict::SystemReserved(c)
    } else if parts.len() == 0 {
        ShortcutVerdict::InvalidFormat
    } else if parts.len() < 2 {
        if is_modifier(parts[0]) {
            ShortcutVerdict::MissingKey
        } else {
            ShortcutVerdict::MissingModifier
        }
    } else if is_modifier(parts.last()) {
        ShortcutVerdict::MissingKey
    } else if first_unknown(parts.drop_last()) is Some {
        ShortcutVerdict::UnknownToken(first_unknown(parts.drop_last())->0)
    } else if is_reserved(c) {
        ShortcutVerdict::SystemReserved(c)
    } else {
        ShortcutVerdict::Accepted
    }
}

fn modifier_slot_of(t: &[char]) -> (k: u8)
    ensures
        k as int == modifier_slot(t@),
{
    if is_str(t, "alt") {
        0
    } else if is_str(t, "ctrl") || is_str(t, "control") {
        1
    } else if is_str(t, "shift") {
        2
    } else if is_str(t, "super") || is_str(t, "meta") || is_str(t, "cmd") || is_str(t, "win") {
        3
    } else {
        4
    }
}

fn is_modifier_token(t: &[char]) -> (b: bool)
    ensures
        b == is_modifier(t@),
{
    let l = lower_vec(t);
    modifier_slot_of(&l) < 4
}

/// The tokens of `c`.
fn tokens_vec(c: &[char]) -> (r: Vec<Vec<char>>)
    ensures
        views(r@) == tokens(c@),
{
    let pieces = split_vec(c, '+');
    let ghost ps = split_char(c@, '+');
    let mut r: Vec<Vec<char>> = Vec::new();
    let n = pieces.len();
    for i in 0..n
        invariant
            n == ps.len(),
            pieces@.len() == ps.len(),
            forall|k: int| 0 <= k < pieces@.len() ==> #[trigger] pieces@[k]@ == ps[k],
            views(r@) == nonblank(ps.take(i as int)),
    {
        let t = trim_vec(&pieces[i]);
        proof {
            assert(ps.take(i + 1).drop_last() == ps.take(i as int));
            assert(ps.take(i + 1).last() == ps[i as int]);
        }
        if t.len() > 0 {
            let ghost before = r@;
            let ghost tv = t@;
            r.push(t);
            assert(views(r@) =~= views(before).push(tv));
        }
    }
    assert(ps.take(n as int) == ps);
    r
}

/// Canonical form of a list of tokens, as characters.
fn canonical_vec(toks: &Vec<Vec<char>>) -> (out: Vec<char>)
    ensures
        out@ == ({
            let s = norm_state(views(toks@));
            flag(s.0, "Alt+"@) + flag(s.1, "Ctrl+"@) + flag(s.2, "Shift+"@) + flag(s.3, "Super+"@)
                + s.4
        }),
{
    let mut alt = false;
    let mut ctrl = false;
    let mut shift = false;
    let mut sup = false;
    let mut key: Vec<char> = Vec::new();
    let n = toks.len();
    for i in 0..n
        invariant
            n == toks@.len(),
            norm_state(views(toks@).take(i as int)) == (alt, ctrl, shift, sup, key@),
    {
        let t = lower_vec(&toks[i]);
        let k = modifier_slot_of(&t);
        proof {
            assert(views(toks@).take(i + 1).drop_last() == views(toks@).take(i as int));
            assert(views(toks@).take(i + 1).last() == toks@[i as int]@);
        }
        if k == 0 {
            alt = true;
        } else if k == 1 {
            ctrl = true;
        } else if k == 2 {
            shift = true;
        } else if k == 3 {
            sup = true;
        } else {
            key = t;
        }
    }
    assert(views(toks@).take(n as int) == views(toks@));
    let mut out: Vec<char> = Vec::new();
    if alt {
        append_str(&mut out, "Alt+");
    }
    if ctrl {
        append_str(&mut out, "Ctrl+");
    }
    if shift {
        append_str(&mut out, "Shift+");
    }
    if sup {
        append_str(&mut out, "Super+");
    }
    append_chars(&mut out, &key);
    assert(out@ =~= flag(alt, "Alt+"@) + flag(ctrl, "Ctrl+"@) + flag(shift, "Shift+"@) + flag(
        sup,
        "Super+"@,
    ) + key@);
    out
}

/// The canonical form of a combination (modifier order fixed, aliases merged).
fn canonical_of(c: &[char]) -> (out: Vec<char>)
    ensures
        out@ == canonical_combo(c@),
{
    let toks = tokens_vec(c);
    canonical_vec(&toks)
}

fn reserved_combo(j: usize) -> (s: &'static str)
    requires
        j < 11,
    ensures
        s@ == reserved_combos()[j as int],
{
    match j {
        0 => "Ctrl+Space",
        1 => "Alt+Shift",
        2 => "Ctrl+Shift",
        3 => "Win+Space",
        4 => "Win+L",
        5 => "Win+R",
        6 => "Win+E",
        7 => "Win+D",
        8 => "Alt+Tab",
        9 => "Ctrl+Esc",
        _ => "Win",
    }
}

fn reserved_check(c: &[char]) -> (b: bool)
    ensures
        b == is_reserved(c@),
{
    let norm = canonical_of(c);
    for j in 0..11
        invariant
            norm@ == canonical_combo(c@),
            reserved_combos().len() == 11,
            forall|k: int| 0 <= k < j ==> canonical_combo(#[trigger] reserved_combos()[k]) != canonical_combo(c@),
    {
        let r = chars_of(reserved_combo(j));
        let rn = canonical_of(&r);
        if same_chars(&rn, &norm) {
            return true;
        }
    }
    false
}

/// Checks a shortcut combination such as `"Ctrl+Alt+Space"`.
///
/// `Ok(())` means the combination can be registered safely.
pub fn validate_shortcut(combo: &str) -> (res: Result<(), ShortcutError>)
    ensures
        verdict_of(res) == shortcut_verdict(combo@),
{
    let all = chars_of(combo);
    let c = trim_vec(&all);
    if c.len() == 0 {
        return Err(ShortcutError::InvalidFormat);
    }
    let lc = lower_vec(&c);
    if is_str(&lc, "win") {
        return Err(ShortcutError::SystemReserved(string_of(&c)));
    }
    let parts = tokens_vec(&c);
    if parts.len() == 0 {
        return Err(ShortcutError::InvalidFormat);
    }
    if parts.len() < 2 {
        assert(views(parts@)[0] == parts@[0]@);
        if is_modifier_token(&parts[0]) {
            return Err(ShortcutError::MissingKey);
        } else {
            return Err(ShortcutError::MissingModifier);
        }
    }
    let m = parts.len() - 1;
    assert(views(parts@).last() == parts@[m as int]@);
    if is_modifier_token(&parts[m]) {
        return Err(ShortcutError::MissingKey);
    }
    let ghost mods = views(parts@).drop_last();
    assert(mods.subrange(0, m as int) == mods);
    for i in 0..m
        invariant
            m + 1 == parts@.len(),
            mods == views(parts@).drop_last(),
            mods.len() == m,
            views(parts@) == tokens(trim(combo@)),
            trim(combo@).len() > 0,
            lower(trim(combo@)) != "win"@,
            !is_modifier(views(parts@).last()),
            first_unknown(mods) == first_unknown(mods.subrange(i as int, m as int)),
    {
        assert(mods.subrange(i as int, m as int)[0] == parts@[i as int]@);
        assert(mods.subrange(i as int, m as int).subrange(1, (m - i) as int) == mods.subrange(
            i + 1,
            m as int,
        ));
        if !is_modifier_token(&parts[i]) {
            assert(first_unknown(mods.subrange(i as int, m as int)) == Some(parts@[i as int]@));
            return Err(ShortcutError::UnknownToken(string_of(&parts[i])));
        }
    }
    assert(mods.subrange(m as int, m as int).len() == 0);
    if reserved_check(&c) {
        return Err(ShortcutError::SystemReserved(string_of(&c)));
    }
    Ok(())
}

} // verus!

verus! {

/// The text shown for a refused shortcut.
pub open spec fn shortcut_message(v: ShortcutVerdict) -> Seq<char> {
    match v {
        ShortcutVerdict::Accepted => Seq::<char>::empty(),
        ShortcutVerdict::InvalidFormat => "快捷键格式应为 'Mod+Key'"@,
        ShortcutVerdict::MissingModifier => "快捷键必须包含修饰符（Alt/Ctrl/Shift/Super）"@,
        ShortcutVerdict::UnknownToken(t) => "无法识别的按键: "@ + t,
        ShortcutVerdict::SystemReserved(c) => "系统保留组合，不可占用（IME/系统快捷键）: "@ + c,
        ShortcutVerdict::MissingKey => "快捷键缺少主键"@,
    }
}

impl ShortcutError {
    /// The text shown to the user.
    pub fn message(&self) -> (s: String)
        ensures
            s@ == shortcut_message(verdict_of(Err(*self))),
    {
        match self {
            ShortcutError::InvalidFormat => String::from_str("快捷键格式应为 'Mod+Key'"),
            ShortcutError::MissingModifier => String::from_str(
                "快捷键必须包含修饰符（Alt/Ctrl/Shift/Super）",
            ),
            ShortcutError::UnknownToken(t) => crate::error::prefixed("无法识别的按键: ", t.as_str()),
            ShortcutError::SystemReserved(c) => crate::error::prefixed(
                "系统保留组合，不可占用（IME/系统快捷键）: ",
                c.as_str(),
            ),
            ShortcutError::MissingKey => String::from_str("快捷键缺少主键"),
        }
    }
}

/// The canonical form of a combination: modifiers in the order Alt, Ctrl,
/// Shift, Super (aliases merged), then the lower-cased main key.
pub fn normalize(combo: &str) -> (out: String)
    ensures
        out@ == canonical_combo(combo@),
{
    let c = chars_of(combo);
    let v = canonical_of(&c);
    string_of(&v)
}

/// Whether a combination is system-reserved depends only on its canonical
/// form: spellings that differ in modifier order, modifier aliases or case
/// are reserved alike.
pub proof fn law_reserved_up_to_canonical_form(a: Seq<char>, b: Seq<char>)
    requires
        canonical_combo(trim(a)) == canonical_combo(trim(b)),
    ensures
        is_reserved(trim(a)) == is_reserved(trim(b)),
{
}

} // verus!

verus! {

/// Whether some token of `toks` stands for modifier slot `k` (in any case,
/// under any alias); slot 4 stands for "not a modifier".
pub open spec fn has_slot(toks: Seq<Seq<char>>, k: int) -> bool {
    exists|i: int| 0 <= i < toks.len() && #[trigger] modifier_slot(lower(toks[i])) == k
}

/// The main key: the last token that is not a modifier, lower-cased (empty
/// when there is none).
pub open spec fn last_key(toks: Seq<Seq<char>>) -> Seq<char>
    decreases toks.len(),
{
    if toks.len() == 0 {
        Seq::<char>::empty()
    } else if modifier_slot(lower(toks.last())) == 4 {
        lower(toks.last())
    } else {
        last_key(toks.drop_last())
    }
}

/// The modifier slots of the tokens, counted: equal for spellings that list
/// the same modifiers in another order, case or alias.
pub open spec fn slot_counts(toks: Seq<Seq<char>>) -> vstd::multiset::Multiset<int> {
    toks.map_values(|t: Seq<char>| modifier_slot(lower(t))).to_multiset()
}

/// The kind of a verdict, without the text it may carry.
pub open spec fn verdict_kind(v: ShortcutVerdict) -> int {
    match v {
        ShortcutVerdict::Accepted => 0,
        ShortcutVerdict::InvalidFormat => 1,
        ShortcutVerdict::MissingModifier => 2,
        ShortcutVerdict::UnknownToken(_) => 3,
        ShortcutVerdict::SystemReserved(_) => 4,
        ShortcutVerdict::MissingKey => 5,
    }
}

proof fn lemma_has_slot_push(d: Seq<Seq<char>>, t: Seq<char>, k: int)
    ensures
        has_slot(d.push(t), k) == (has_slot(d, k) || modifier_slot(lower(t)) == k),
{
    let p = d.push(t);
    if has_slot(d, k) {
        let i = choose|i: int| 0 <= i < d.len() && #[trigger] modifier_slot(lower(d[i])) == k;
        assert(p[i] == d[i]);
    }
    if modifier_slot(lower(t)) == k {
        assert(p[d.len() as int] == t);
    }
    if has_slot(p, k) {
        let i = choose|i: int| 0 <= i < p.len() && #[trigger] modifier_slot(lower(p[i])) == k;
        if i < d.len() {
            assert(p[i] == d[i]);
        }
    }
}

proof fn lemma_norm_state_parts(toks: Seq<Seq<char>>)
    ensures
        norm_state(toks) == (
            has_slot(toks, 0),
            has_slot(toks, 1),
            has_slot(toks, 2),
            has_slot(toks, 3),
            last_key(toks),
        ),
    decreases toks.len(),
{
    if toks.len() > 0 {
        let d = toks.drop_last();
        lemma_norm_state_parts(d);
        assert(d.push(toks.last()) == toks);
        lemma_has_slot_push(d, toks.last(), 0);
        lemma_has_slot_push(d, toks.last(), 1);
        lemma_has_slot_push(d, toks.last(), 2);
        lemma_has_slot_push(d, toks.last(), 3);
    }
}

proof fn lemma_has_slot_counts(toks: Seq<Seq<char>>, k: int)
    ensures
        has_slot(toks, k) == (slot_counts(toks).count(k) > 0),
{
    let m = toks.map_values(|t: Seq<char>| modifier_slot(lower(t)));
    m.to_multiset_ensures();
    if has_slot(toks, k) {
        let i = choose|i: int| 0 <= i < toks.len() && #[trigger] modifier_slot(lower(toks[i])) == k;
        assert(m[i] == k);
    }
    if m.contains(k) {
        let i = choose|i: int| 0 <= i < m.len() && m[i] == k;
        assert(modifier_slot(lower(toks[i])) == k);
    }
}

/// With a main key last, a modifier slot occurs among all tokens exactly
/// when it occurs before the key, and the key is the last token lowered.
proof fn lemma_key_last(toks: Seq<Seq<char>>)
    requires
        toks.len() >= 1,
        !is_modifier(toks.last()),
    ensures
        last_key(toks) == lower(toks.last()),
        forall|k: int| 0 <= k < 4 ==> has_slot(toks, k) == has_slot(toks.drop_last(), k),
{
    let d = toks.drop_last();
    assert(d.push(toks.last()) == toks);
    assert forall|k: int| 0 <= k < 4 implies has_slot(toks, k) == has_slot(d, k) by {
        lemma_has_slot_push(d, toks.last(), k);
    }
}

/// The canonical form of a combination depends only on which modifiers occur
/// (in any order, letter case or alias) and on its main key up to letter case:
/// two spellings whose tokens end in the same key (ignoring case) and whose
/// other tokens stand for the same modifiers, counted, normalise alike.
pub proof fn law_canonical_ignores_modifier_order_case_aliases(a: Seq<char>, b: Seq<char>)
    requires
        tokens(a).len() >= 1,
        tokens(b).len() >= 1,
        !is_modifier(tokens(a).last()),
        lower(tokens(a).last()) == lower(tokens(b).last()),
        slot_counts(tokens(a).drop_last()) == slot_counts(tokens(b).drop_last()),
    ensures
        canonical_combo(a) == canonical_combo(b),
{
    let ta = tokens(a);
    let tb = tokens(b);
    lemma_key_last(ta);
    lemma_key_last(tb);
    lemma_norm_state_parts(ta);
    lemma_norm_state_parts(tb);
    assert forall|k: int| 0 <= k < 4 implies has_slot(ta, k) == has_slot(tb, k) by {
        lemma_has_slot_counts(ta.drop_last(), k);
        lemma_has_slot_counts(tb.drop_last(), k);
    }
    assert(has_slot(ta, 0) == has_slot(tb, 0));
    assert(has_slot(ta, 1) == has_slot(tb, 1));
    assert(has_slot(ta, 2) == has_slot(tb, 2));
    assert(has_slot(ta, 3) == has_slot(tb, 3));
}

proof fn lemma_first_unknown_none(m: Seq<Seq<char>>)
    ensures
        (first_unknown(m) is None) == !has_slot(m, 4),
    decreases m.len(),
{
    if m.len() > 0 {
        let r = m.subrange(1, m.len() as int);
        lemma_first_unknown_none(r);
        if has_slot(r, 4) {
            let i = choose|i: int| 0 <= i < r.len() && #[trigger] modifier_slot(lower(r[i])) == 4;
            assert(m[i + 1] == r[i]);
        }
        if has_slot(m, 4) {
            let i = choose|i: int| 0 <= i < m.len() && #[trigger] modifier_slot(lower(m[i])) == 4;
            if i > 0 {
                assert(r[i - 1] == m[i]);
            }
        }
    }
}

proof fn lemma_split_without_sep(s: Seq<char>, sep: char)
    requires
        forall|i: int| 0 <= i < s.len() ==> s[i] != sep,
    ensures
        split_char(s, sep).len() == 1,
    decreases s.len(),
{
    if s.len() > 0 {
        lemma_split_without_sep(s.drop_last(), sep);
    }
}

proof fn lemma_tokens_of_empty(c: Seq<char>)
    requires
        c.len() == 0,
    ensures
        tokens(c).len() == 0,
{
    let p = split_char(c, '+');
    assert(p == seq![Seq::<char>::empty()]);
    assert(p.drop_last() =~= Seq::<Seq<char>>::empty());
    assert(nonblank(p.drop_last()) == Seq::<Seq<char>>::empty());
    assert(trim(p.last()) =~= Seq::<char>::empty());
}

/// A combination reading `win` (in any case) has at most one token.
proof fn lemma_win_one_token(c: Seq<char>)
    requires
        lower(c) == "win"@,
    ensures
        tokens(c).len() <= 1,
{
    reveal_strlit("win");
    assert("win"@.len() == 3);
    assert(lower(c).len() == c.len());
    assert forall|i: int| 0 <= i < c.len() implies c[i] != '+' by {
        assert(lower(c)[i] == crate::text::lower_char(c[i]));
        assert("win"@[i] != '+');
    }
    lemma_split_without_sep(c, '+');
    let p = split_char(c, '+');
    assert(p.drop_last().len() == 0);
    assert(nonblank(p.drop_last()) == Seq::<Seq<char>>::empty());
}

/// Validation does not depend on the order, letter case or aliases of the
/// modifiers, nor on the case of the main key: two combinations of at least
/// two tokens whose last tokens agree up to case and whose other tokens stand
/// for the same modifiers, counted, get the same kind of verdict (only the
/// text carried by an unknown-token or reserved refusal may differ).
pub proof fn law_verdict_ignores_modifier_order_case_aliases(a: Seq<char>, b: Seq<char>)
    requires
        tokens(trim(a)).len() >= 2,
        tokens(trim(b)).len() >= 2,
        lower(tokens(trim(a)).last()) == lower(tokens(trim(b)).last()),
        slot_counts(tokens(trim(a)).drop_last()) == slot_counts(tokens(trim(b)).drop_last()),
    ensures
        verdict_kind(shortcut_verdict(a)) == verdict_kind(shortcut_verdict(b)),
{
    let ca = trim(a);
    let cb = trim(b);
    let ta = tokens(ca);
    let tb = tokens(cb);
    if lower(ca) == "win"@ {
        lemma_win_one_token(ca);
    }
    if lower(cb) == "win"@ {
        lemma_win_one_token(cb);
    }
    if ca.len() == 0 {
        lemma_tokens_of_empty(ca);
    }
    if cb.len() == 0 {
        lemma_tokens_of_empty(cb);
    }
    assert(ca.len() > 0);
    assert(cb.len() > 0);
    assert(lower(ca) != "win"@);
    assert(lower(cb) != "win"@);
    if !is_modifier(ta.last()) {
        lemma_first_unknown_none(ta.drop_last());
        lemma_first_unknown_none(tb.drop_last());
        lemma_has_slot_counts(ta.drop_last(), 4);
        lemma_has_slot_counts(tb.drop_last(), 4);
        law_canonical_ignores_modifier_order_case_aliases(ca, cb);
        assert(!is_modifier(tb.last()));
        assert((first_unknown(ta.drop_last()) is None) == (first_unknown(tb.drop_last()) is None));
        assert(is_reserved(ca) == is_reserved(cb));
    } else {
        assert(is_modifier(tb.last()));
    }
}

} // verus!

verus! {

/// A token free of `+` and of surrounding white space.
pub open spec fn clean_token(t: Seq<char>) -> bool {
    &&& forall|k: int| 0 <= k < t.len() ==> t[k] != '+'
    &&& trim(t) == t
}

proof fn lemma_lower_char_ws(c: char)
    ensures
        crate::text::is_ws(crate::text::lower_char(c)) == crate::text::is_ws(c),
        (crate::text::lower_char(c) == '+') == (c == '+'),
{
}

proof fn lemma_trim_start_lower(s: Seq<char>)
    ensures
        crate::text::trim_start(lower(s)) == lower(crate::text::trim_start(s)),
    decreases s.len(),
{
    if s.len() > 0 {
        lemma_lower_char_ws(s[0]);
        assert(lower(s)[0] == crate::text::lower_char(s[0]));
        if crate::text::is_ws(s[0]) {
            assert(lower(s).subrange(1, lower(s).len() as int) =~= lower(s.subrange(1, s.len() as int)));
            lemma_trim_start_lower(s.subrange(1, s.len() as int));
        }
    } else {
        assert(lower(s).len() == 0);
    }
}

proof fn lemma_trim_end_lower(s: Seq<char>)
    ensures
        crate::text::trim_end(lower(s)) == lower(crate::text::trim_end(s)),
    decreases s.len(),
{
    if s.len() > 0 {
        lemma_lower_char_ws(s[s.len() - 1]);
        assert(lower(s)[s.len() - 1] == crate::text::lower_char(s[s.len() - 1]));
        if crate::text::is_ws(s[s.len() - 1]) {
            assert(lower(s).subrange(0, lower(s).len() - 1) =~= lower(s.subrange(0, s.len() - 1)));
            lemma_trim_end_lower(s.subrange(0, s.len() - 1));
        }
    } else {
        assert(lower(s).len() == 0);
    }
}

proof fn lemma_trim_start_no_plus(s: Seq<char>)
    requires
        forall|k: int| 0 <= k < s.len() ==> s[k] != '+',
    ensures
        forall|k: int| 0 <= k < crate::text::trim_start(s).len() ==> crate::text::trim_start(s)[k] != '+',
    decreases s.len(),
{
    if s.len() > 0 && crate::text::is_ws(s[0]) {
        let r = s.subrange(1, s.len() as int);
        assert forall|k: int| 0 <= k < r.len() implies r[k] != '+' by {
            assert(r[k] == s[k + 1]);
        }
        lemma_trim_start_no_plus(r);
        assert(crate::text::trim_start(s) == crate::text::trim_start(r));
    } else {
        assert(crate::text::trim_start(s) == s);
    }
}

proof fn lemma_trim_end_no_plus(s: Seq<char>)
    requires
        forall|k: int| 0 <= k < s.len() ==> s[k] != '+',
    ensures
        forall|k: int| 0 <= k < crate::text::trim_end(s).len() ==> crate::text::trim_end(s)[k] != '+',
    decreases s.len(),
{
    if s.len() > 0 && crate::text::is_ws(s[s.len() - 1]) {
        let r = s.subrange(0, s.len() - 1);
        assert forall|k: int| 0 <= k < r.len() implies r[k] != '+' by {
            assert(r[k] == s[k]);
        }
        lemma_trim_end_no_plus(r);
        assert(crate::text::trim_end(s) == crate::text::trim_end(r));
    } else {
        assert(crate::text::trim_end(s) == s);
    }
}

proof fn lemma_trim_clean(s: Seq<char>)
    requires
        forall|k: int| 0 <= k < s.len() ==> s[k] != '+',
    ensures
        clean_token(trim(s)),
{
    lemma_trim_start_no_plus(s);
    lemma_trim_end_no_plus(crate::text::trim_start(s));
    crate::text::lemma_trim_idempotent(s);
}

proof fn lemma_lower_clean(t: Seq<char>)
    requires
        clean_token(t),
    ensures
        clean_token(lower(t)),
{
    lemma_trim_start_lower(t);
    lemma_trim_end_lower(crate::text::trim_start(t));
    assert forall|k: int| 0 <= k < lower(t).len() implies lower(t)[k] != '+' by {
        lemma_lower_char_ws(t[k]);
    }
}

proof fn lemma_split_pieces_no_plus(s: Seq<char>)
    ensures
        forall|j: int, k: int|
            0 <= j < split_char(s, '+').len() && 0 <= k < split_char(s, '+')[j].len()
                ==> #[trigger] split_char(s, '+')[j][k] != '+',
    decreases s.len(),
{
    if s.len() > 0 {
        let d = s.drop_last();
        lemma_split_pieces_no_plus(d);
        crate::text::lemma_split_nonempty(d, '+');
        let r = split_char(d, '+');
        let p = split_char(s, '+');
        if s.last() != '+' {
            assert forall|j: int, k: int| 0 <= j < p.len() && 0 <= k < p[j].len() implies #[trigger] p[j][k]
                != '+' by {
                if j < r.len() - 1 {
                    assert(p[j] == r[j]);
                } else {
                    assert(p[j] == r.last().push(s.last()));
                    if k < r.last().len() {
                        assert(p[j][k] == r[r.len() - 1][k]);
                    }
                }
            }
        } else {
            assert forall|j: int, k: int| 0 <= j < p.len() && 0 <= k < p[j].len() implies #[trigger] p[j][k]
                != '+' by {
                assert(p[j] == r.push(Seq::<char>::empty())[j]);
                if j < r.len() {
                    assert(p[j] == r[j]);
                }
            }
        }
    }
}

proof fn lemma_nonblank_clean(p: Seq<Seq<char>>)
    requires
        forall|j: int, k: int| 0 <= j < p.len() && 0 <= k < p[j].len() ==> #[trigger] p[j][k] != '+',
    ensures
        forall|i: int| 0 <= i < nonblank(p).len() ==> #[trigger] clean_token(nonblank(p)[i]),
    decreases p.len(),
{
    if p.len() > 0 {
        let d = p.drop_last();
        assert forall|j: int, k: int| 0 <= j < d.len() && 0 <= k < d[j].len() implies #[trigger] d[j][k]
            != '+' by {
            assert(d[j] == p[j]);
        }
        lemma_nonblank_clean(d);
        let l = p.last();
        assert forall|k: int| 0 <= k < l.len() implies l[k] != '+' by {
            assert(l[k] == p[p.len() - 1][k]);
        }
        lemma_trim_clean(l);
        let r = nonblank(d);
        let t = trim(l);
        if t.len() > 0 {
            assert forall|i: int| 0 <= i < r.push(t).len() implies #[trigger] clean_token(r.push(t)[i]) by {
                if i < r.len() {
                    assert(r.push(t)[i] == r[i]);
                }
            }
        }
    }
}

proof fn lemma_tokens_clean(c: Seq<char>)
    ensures
        forall|i: int| 0 <= i < tokens(c).len() ==> #[trigger] clean_token(tokens(c)[i]),
{
    lemma_split_pieces_no_plus(c);
    lemma_nonblank_clean(split_char(c, '+'));
}

proof fn lemma_last_key_clean(toks: Seq<Seq<char>>)
    requires
        forall|i: int| 0 <= i < toks.len() ==> #[trigger] clean_token(toks[i]),
    ensures
        clean_token(last_key(toks)),
        last_key(toks).len() > 0 ==> modifier_slot(lower(last_key(toks))) == 4 && lower(last_key(toks))
            == last_key(toks),
    decreases toks.len(),
{
    if toks.len() > 0 {
        let t = toks.last();
        assert(clean_token(toks[toks.len() - 1]));
        if modifier_slot(lower(t)) == 4 {
            lemma_lower_clean(t);
            crate::text::lemma_lower_idempotent(t);
        } else {
            let d = toks.drop_last();
            assert forall|i: int| 0 <= i < d.len() implies #[trigger] clean_token(d[i]) by {
                assert(d[i] == toks[i]);
            }
            lemma_last_key_clean(d);
        }
    } else {
        assert(trim(Seq::<char>::empty()) =~= Seq::<char>::empty());
    }
}

proof fn lemma_split_append(s: Seq<char>, w: Seq<char>)
    requires
        forall|k: int| 0 <= k < w.len() ==> w[k] != '+',
    ensures
        split_char(s + w, '+') == split_char(s, '+').update(
            split_char(s, '+').len() - 1,
            split_char(s, '+').last() + w,
        ),
    decreases w.len(),
{
    crate::text::lemma_split_nonempty(s, '+');
    let r = split_char(s, '+');
    if w.len() == 0 {
        assert(s + w =~= s);
        assert(r.last() + w =~= r.last());
        assert(r.update(r.len() - 1, r.last()) =~= r);
    } else {
        let w0 = w.drop_last();
        lemma_split_append(s, w0);
        assert((s + w).drop_last() =~= s + w0);
        assert((s + w).last() == w.last());
        assert((r.last() + w0).push(w.last()) =~= r.last() + w);
        let q = split_char(s + w0, '+');
        assert(q.update(q.len() - 1, q.last().push(w.last())) =~= r.update(
            r.len() - 1,
            r.last() + w,
        ));
    }
}

/// Appending an optional modifier name with its `+` to a prefix whose pieces
/// are `names` and an empty last piece.
proof fn lemma_split_name_step(prefix: Seq<char>, names: Seq<Seq<char>>, f: bool, name: Seq<char>)
    requires
        split_char(prefix, '+') == names.push(Seq::<char>::empty()),
        forall|k: int| 0 <= k < name.len() ==> name[k] != '+',
    ensures
        split_char(prefix + flag(f, name.push('+')), '+') == (if f {
            names.push(name)
        } else {
            names
        }).push(Seq::<char>::empty()),
{
    if f {
        lemma_split_append(prefix, name);
        let e = Seq::<char>::empty();
        assert(names.push(e).update(names.len() as int, e + name) =~= names.push(name));
        assert(prefix + name.push('+') =~= (prefix + name).push('+'));
        assert((prefix + name).push('+').drop_last() =~= prefix + name);
    } else {
        assert(prefix + flag(f, name.push('+')) =~= prefix);
    }
}

proof fn lemma_nonblank_names(names: Seq<Seq<char>>)
    requires
        forall|i: int| 0 <= i < names.len() ==> #[trigger] names[i].len() > 0 && trim(names[i]) == names[i],
    ensures
        nonblank(names) == names,
    decreases names.len(),
{
    if names.len() > 0 {
        let d = names.drop_last();
        assert forall|i: int| 0 <= i < d.len() implies #[trigger] d[i].len() > 0 && trim(d[i]) == d[i] by {
            assert(d[i] == names[i]);
        }
        lemma_nonblank_names(d);
        assert(names.last().len() > 0 && trim(names.last()) == names.last());
        assert(d.push(names.last()) =~= names);
    }
}

/// Adding a name's token to a token list sets its modifier flag.
proof fn lemma_norm_state_name(names: Seq<Seq<char>>, f: bool, name: Seq<char>, slot: int)
    requires
        0 <= slot < 4,
        modifier_slot(lower(name)) == slot,
    ensures
        norm_state(if f {
            names.push(name)
        } else {
            names
        }) == ({
            let s = norm_state(names);
            (
                s.0 || (f && slot == 0),
                s.1 || (f && slot == 1),
                s.2 || (f && slot == 2),
                s.3 || (f && slot == 3),
                s.4,
            )
        }),
{
    if f {
        assert(names.push(name).drop_last() =~= names);
    }
}

/// Normalising a canonical form changes nothing.
pub proof fn law_canonical_idempotent(c: Seq<char>)
    ensures
        canonical_combo(canonical_combo(c)) == canonical_combo(c),
{
    let toks = tokens(c);
    lemma_norm_state_parts(toks);
    lemma_tokens_clean(c);
    lemma_last_key_clean(toks);
    let s = norm_state(toks);
    let key = s.4;
    reveal_strlit("Alt+");
    reveal_strlit("Ctrl+");
    reveal_strlit("Shift+");
    reveal_strlit("Super+");
    reveal_strlit("alt");
    reveal_strlit("ctrl");
    reveal_strlit("shift");
    reveal_strlit("super");
    reveal_strlit("control");
    reveal_strlit("meta");
    reveal_strlit("cmd");
    reveal_strlit("win");
    let alt = seq!['A', 'l', 't'];
    let ctl = seq!['C', 't', 'r', 'l'];
    let shf = seq!['S', 'h', 'i', 'f', 't'];
    let sup = seq!['S', 'u', 'p', 'e', 'r'];
    assert("Alt+"@ =~= alt.push('+'));
    assert("Ctrl+"@ =~= ctl.push('+'));
    assert("Shift+"@ =~= shf.push('+'));
    assert("Super+"@ =~= sup.push('+'));
    assert(lower(alt) =~= "alt"@);
    assert(lower(ctl) =~= "ctrl"@);
    assert(lower(shf) =~= "shift"@);
    assert(lower(sup) =~= "super"@);
    assert("super"@[1] != "shift"@[1]);
    assert("super"@ != "shift"@);
    assert(modifier_slot(lower(sup)) == 3);
    let e = Seq::<char>::empty();
    let n0 = Seq::<Seq<char>>::empty();
    assert(split_char(e, '+') == n0.push(e));
    let p1 = e + flag(s.0, "Alt+"@);
    lemma_split_name_step(e, n0, s.0, alt);
    let n1 = if s.0 { n0.push(alt) } else { n0 };
    let p2 = p1 + flag(s.1, "Ctrl+"@);
    lemma_split_name_step(p1, n1, s.1, ctl);
    let n2 = if s.1 { n1.push(ctl) } else { n1 };
    let p3 = p2 + flag(s.2, "Shift+"@);
    lemma_split_name_step(p2, n2, s.2, shf);
    let n3 = if s.2 { n2.push(shf) } else { n2 };
    let p4 = p3 + flag(s.3, "Super+"@);
    lemma_split_name_step(p3, n3, s.3, sup);
    let n4 = if s.3 { n3.push(sup) } else { n3 };
    let out = p4 + key;
    assert(out =~= canonical_combo(c));
    lemma_split_append(p4, key);
    assert(n4.push(e).update(n4.len() as int, e + key) =~= n4.push(key));
    // The names are clean and non-empty, so they are all tokens.
    assert(trim(alt) =~= alt);
    assert(trim(ctl) =~= ctl);
    assert(trim(shf) =~= shf);
    assert(trim(sup) =~= sup);
    assert forall|i: int| 0 <= i < n4.len() implies #[trigger] n4[i].len() > 0 && trim(n4[i]) == n4[i] by {
        assert(n4[i] == alt || n4[i] == ctl || n4[i] == shf || n4[i] == sup);
    }
    lemma_nonblank_names(n4);
    assert(n4.push(key).drop_last() =~= n4);
    // Flags of the names.
    lemma_norm_state_name(n0, s.0, alt, 0);
    lemma_norm_state_name(n1, s.1, ctl, 1);
    lemma_norm_state_name(n2, s.2, shf, 2);
    lemma_norm_state_name(n3, s.3, sup, 3);
    assert(norm_state(n4) == (s.0, s.1, s.2, s.3, e));
    if key.len() > 0 {
        assert(tokens(out) == n4.push(key));
        assert(n4.push(key).drop_last() =~= n4);
        assert(norm_state(tokens(out)) == s);
    } else {
        assert(tokens(out) == n4);
        assert(key =~= e);
        assert(norm_state(tokens(out)) == s);
    }
}

} // verus!

verus! {

/// Tokens of `m+k` for two clean, non-empty tokens.
proof fn lemma_tokens_pair(m: Seq<char>, k: Seq<char>)
    requires
        m.len() > 0,
        k.len() > 0,
        clean_token(m),
        clean_token(k),
    ensures
        tokens(m + seq!['+'] + k) == seq![m, k],
{
    let e = Seq::<char>::empty();
    let n0 = Seq::<Seq<char>>::empty();
    assert(split_char(e, '+') == n0.push(e));
    lemma_split_name_step(e, n0, true, m);
    assert(e + flag(true, m.push('+')) =~= m.push('+'));
    lemma_split_append(m.push('+'), k);
    assert(n0.push(m).push(e).update(1, e + k) =~= seq![m, k]);
    assert(m + seq!['+'] + k =~= m.push('+') + k);
    let mk = seq![m, k];
    assert forall|i: int| 0 <= i < mk.len() implies #[trigger] mk[i].len() > 0 && trim(mk[i]) == mk[i] by {}
    lemma_nonblank_names(mk);
}

/// Canonical form of `m+k` for a modifier `m` and a main key `k`.
proof fn lemma_canonical_pair(m: Seq<char>, k: Seq<char>)
    requires
        m.len() > 0,
        k.len() > 0,
        clean_token(m),
        clean_token(k),
        0 <= modifier_slot(lower(m)) < 4,
        modifier_slot(lower(k)) == 4,
    ensures
        canonical_combo(m + seq!['+'] + k) == ({
            let s = modifier_slot(lower(m));
            flag(s == 0, "Alt+"@) + flag(s == 1, "Ctrl+"@) + flag(s == 2, "Shift+"@) + flag(
                s == 3,
                "Super+"@,
            ) + lower(k)
        }),
{
    lemma_tokens_pair(m, k);
    let t = seq![m, k];
    assert(t.drop_last() =~= seq![m]);
    assert(seq![m].drop_last() =~= Seq::<Seq<char>>::empty());
    assert(t.last() == k);
    assert(seq![m].last() == m);
    let sl = modifier_slot(lower(m));
    let e = Seq::<char>::empty();
    assert(norm_state(Seq::<Seq<char>>::empty()) == (false, false, false, false, e));
    assert(norm_state(seq![m]) == (sl == 0, sl == 1, sl == 2, sl == 3, e));
    assert(norm_state(t) == (sl == 0, sl == 1, sl == 2, sl == 3, lower(k)));
}

} // verus!

verus! {

pub open spec fn ascii_letter(c: char) -> bool {
    ('A' <= c <= 'Z') || ('a' <= c <= 'z')
}

proof fn lemma_letters_clean(t: Seq<char>)
    requires
        t.len() > 0,
        forall|q: int| 0 <= q < t.len() ==> ascii_letter(#[trigger] t[q]),
    ensures
        clean_token(t),
{
    assert(crate::text::trim_start(t) == t);
    assert(crate::text::trim_end(t) == t);
}

/// The canonical forms of the reserved combinations that have a main key.
pub open spec fn reserved_key_forms() -> Seq<Seq<char>> {
    seq![
        "Ctrl+space"@,
        "Super+space"@,
        "Super+l"@,
        "Super+r"@,
        "Super+e"@,
        "Super+d"@,
        "Alt+tab"@,
        "Ctrl+esc"@,
    ]
}

proof fn lemma_pair_form(combo: Seq<char>, m: Seq<char>, k: Seq<char>, form: Seq<char>)
    requires
        m.len() > 0,
        k.len() > 0,
        forall|q: int| 0 <= q < m.len() ==> ascii_letter(#[trigger] m[q]),
        forall|q: int| 0 <= q < k.len() ==> ascii_letter(#[trigger] k[q]),
        combo == m + seq!['+'] + k,
        0 <= modifier_slot(lower(m)) < 4,
        modifier_slot(lower(k)) == 4,
        form == ({
            let s = modifier_slot(lower(m));
            flag(s == 0, "Alt+"@) + flag(s == 1, "Ctrl+"@) + flag(s == 2, "Shift+"@) + flag(
                s == 3,
                "Super+"@,
            ) + lower(k)
        }),
    ensures
        canonical_combo(combo) == form,
        tokens(combo) == seq![m, k],
{
    lemma_letters_clean(m);
    lemma_letters_clean(k);
    lemma_canonical_pair(m, k);
    lemma_tokens_pair(m, k);
}

/// A reserved combination `m+k` (entry `j` of the list) of a modifier and a
/// main key is refused as reserved.
proof fn lemma_pair_verdict(combo: Seq<char>, m: Seq<char>, k: Seq<char>, j: int)
    requires
        0 <= j < reserved_combos().len(),
        combo == reserved_combos()[j],
        m.len() > 0,
        k.len() > 0,
        forall|q: int| 0 <= q < m.len() ==> ascii_letter(#[trigger] m[q]),
        forall|q: int| 0 <= q < k.len() ==> ascii_letter(#[trigger] k[q]),
        combo == m + seq!['+'] + k,
        0 <= modifier_slot(lower(m)) < 4,
        modifier_slot(lower(k)) == 4,
    ensures
        shortcut_verdict(combo) == ShortcutVerdict::SystemReserved(combo),
{
    reveal_strlit("win");
    lemma_letters_clean(m);
    lemma_letters_clean(k);
    lemma_tokens_pair(m, k);
    assert(combo[0] == m[0]);
    assert(combo[combo.len() - 1] == k[k.len() - 1]);
    assert(crate::text::trim_start(combo) == combo);
    assert(crate::text::trim_end(combo) == combo);
    assert(lower(combo).len() == combo.len());
    assert(combo.len() >= 3);
    if lower(combo) == "win"@ {
        lemma_win_one_token(combo);
    }
    let t = seq![m, k];
    assert(t.drop_last() =~= seq![m]);
    assert(seq![m].subrange(1, 1) =~= Seq::<Seq<char>>::empty());
    assert(seq![m][0] == m);
    assert(is_modifier(seq![m][0]));
    assert(first_unknown(Seq::<Seq<char>>::empty()) is None);
    assert(first_unknown(seq![m]) is None);
    assert(canonical_combo(reserved_combos()[j]) == canonical_combo(combo));
    assert(is_reserved(combo));
}

/// The eight reserved combinations with a main key, in canonical form.
#[verifier::spinoff_prover]
#[verifier::rlimit(60)]
proof fn lemma_reserved_canonical_forms()
    ensures
        tokens(reserved_combos()[0]).len() == 2,
        canonical_combo(reserved_combos()[0]) == reserved_key_forms()[0],
        tokens(reserved_combos()[3]).len() == 2,
        canonical_combo(reserved_combos()[3]) == reserved_key_forms()[1],
        tokens(reserved_combos()[4]).len() == 2,
        canonical_combo(reserved_combos()[4]) == reserved_key_forms()[2],
        tokens(reserved_combos()[5]).len() == 2,
        canonical_combo(reserved_combos()[5]) == reserved_key_forms()[3],
        tokens(reserved_combos()[6]).len() == 2,
        canonical_combo(reserved_combos()[6]) == reserved_key_forms()[4],
        tokens(reserved_combos()[7]).len() == 2,
        canonical_combo(reserved_combos()[7]) == reserved_key_forms()[5],
        tokens(reserved_combos()[8]).len() == 2,
        canonical_combo(reserved_combos()[8]) == reserved_key_forms()[6],
        tokens(reserved_combos()[9]).len() == 2,
        canonical_combo(reserved_combos()[9]) == reserved_key_forms()[7],
        shortcut_verdict(reserved_combos()[0]) == ShortcutVerdict::SystemReserved(reserved_combos()[0]),
        shortcut_verdict(reserved_combos()[3]) == ShortcutVerdict::SystemReserved(reserved_combos()[3]),
        shortcut_verdict(reserved_combos()[4]) == ShortcutVerdict::SystemReserved(reserved_combos()[4]),
        shortcut_verdict(reserved_combos()[5]) == ShortcutVerdict::SystemReserved(reserved_combos()[5]),
        shortcut_verdict(reserved_combos()[6]) == ShortcutVerdict::SystemReserved(reserved_combos()[6]),
        shortcut_verdict(reserved_combos()[7]) == ShortcutVerdict::SystemReserved(reserved_combos()[7]),
        shortcut_verdict(reserved_combos()[8]) == ShortcutVerdict::SystemReserved(reserved_combos()[8]),
        shortcut_verdict(reserved_combos()[9]) == ShortcutVerdict::SystemReserved(reserved_combos()[9]),
{
    reveal_strlit("Ctrl+Space");
    reveal_strlit("Win+Space");
    reveal_strlit("Win+L");
    reveal_strlit("Win+R");
    reveal_strlit("Win+E");
    reveal_strlit("Win+D");
    reveal_strlit("Alt+Tab");
    reveal_strlit("Ctrl+Esc");
    reveal_strlit("Ctrl+space");
    reveal_strlit("Super+space");
    reveal_strlit("Super+l");
    reveal_strlit("Super+r");
    reveal_strlit("Super+e");
    reveal_strlit("Super+d");
    reveal_strlit("Alt+tab");
    reveal_strlit("Ctrl+esc");
    reveal_strlit("Alt+");
    reveal_strlit("Ctrl+");
    reveal_strlit("Shift+");
    reveal_strlit("Super+");
    reveal_strlit("alt");
    reveal_strlit("ctrl");
    reveal_strlit("control");
    reveal_strlit("shift");
    reveal_strlit("super");
    reveal_strlit("meta");
    reveal_strlit("cmd");
    reveal_strlit("win");
    let ctrl = seq!['C', 't', 'r', 'l'];
    let win = seq!['W', 'i', 'n'];
    let alt = seq!['A', 'l', 't'];
    let space = seq!['S', 'p', 'a', 'c', 'e'];
    let tab = seq!['T', 'a', 'b'];
    let esc = seq!['E', 's', 'c'];
    let kl = seq!['L'];
    let kr = seq!['R'];
    let ke = seq!['E'];
    let kd = seq!['D'];
    assert(lower(ctrl) =~= "ctrl"@);
    assert(lower(win) =~= "win"@);
    assert(lower(alt) =~= "alt"@);
    assert(lower(space) =~= seq!['s', 'p', 'a', 'c', 'e']);
    assert(lower(tab) =~= seq!['t', 'a', 'b']);
    assert(lower(esc) =~= seq!['e', 's', 'c']);
    assert(lower(kl) =~= seq!['l']);
    assert(lower(kr) =~= seq!['r']);
    assert(lower(ke) =~= seq!['e']);
    assert(lower(kd) =~= seq!['d']);
    assert(modifier_slot("ctrl"@) == 1);
    assert("win"@[0] != "alt"@[0]);
    assert("win"@.len() != "ctrl"@.len() && "win"@.len() != "control"@.len());
    assert("win"@.len() != "shift"@.len() && "win"@.len() != "super"@.len());
    assert("win"@[0] != "meta"@[0] || "win"@.len() != "meta"@.len());
    assert("win"@[0] != "cmd"@[0]);
    assert(modifier_slot("win"@) == 3);
    assert(modifier_slot("alt"@) == 0);
    assert(seq!['s', 'p', 'a', 'c', 'e'][1] != "shift"@[1] && seq!['s', 'p', 'a', 'c', 'e'][1]
        != "super"@[1]);
    assert(modifier_slot(seq!['s', 'p', 'a', 'c', 'e']) == 4);
    assert(seq!['t', 'a', 'b'][0] != "alt"@[0] && seq!['t', 'a', 'b'][0] != "cmd"@[0] && seq![
        't',
        'a',
        'b',
    ][0] != "win"@[0]);
    assert(modifier_slot(seq!['t', 'a', 'b']) == 4);
    assert(seq!['e', 's', 'c'][0] != "alt"@[0] && seq!['e', 's', 'c'][0] != "cmd"@[0] && seq![
        'e',
        's',
        'c',
    ][0] != "win"@[0]);
    assert(modifier_slot(seq!['e', 's', 'c']) == 4);
    assert(modifier_slot(seq!['l']) == 4);
    assert(modifier_slot(seq!['r']) == 4);
    assert(modifier_slot(seq!['e']) == 4);
    assert(modifier_slot(seq!['d']) == 4);
    let r = reserved_combos();
    assert(r[0] =~= ctrl + seq!['+'] + space);
    lemma_pair_form(r[0], ctrl, space, "Ctrl+"@ + lower(space));
    assert("Ctrl+"@ + lower(space) =~= reserved_key_forms()[0]);
    assert(r[3] =~= win + seq!['+'] + space);
    lemma_pair_form(r[3], win, space, "Super+"@ + lower(space));
    assert("Super+"@ + lower(space) =~= reserved_key_forms()[1]);
    assert(r[4] =~= win + seq!['+'] + kl);
    lemma_pair_form(r[4], win, kl, "Super+"@ + lower(kl));
    assert("Super+"@ + lower(kl) =~= reserved_key_forms()[2]);
    assert(r[5] =~= win + seq!['+'] + kr);
    lemma_pair_form(r[5], win, kr, "Super+"@ + lower(kr));
    assert("Super+"@ + lower(kr) =~= reserved_key_forms()[3]);
    assert(r[6] =~= win + seq!['+'] + ke);
    lemma_pair_form(r[6], win, ke, "Super+"@ + lower(ke));
    assert("Super+"@ + lower(ke) =~= reserved_key_forms()[4]);
    assert(r[7] =~= win + seq!['+'] + kd);
    lemma_pair_form(r[7], win, kd, "Super+"@ + lower(kd));
    assert("Super+"@ + lower(kd) =~= reserved_key_forms()[5]);
    assert(r[8] =~= alt + seq!['+'] + tab);
    lemma_pair_form(r[8], alt, tab, "Alt+"@ + lower(tab));
    assert("Alt+"@ + lower(tab) =~= reserved_key_forms()[6]);
    assert(r[9] =~= ctrl + seq!['+'] + esc);
    lemma_pair_form(r[9], ctrl, esc, "Ctrl+"@ + lower(esc));
    assert("Ctrl+"@ + lower(esc) =~= reserved_key_forms()[7]);
    lemma_pair_verdict(r[0], ctrl, space, 0);
    lemma_pair_verdict(r[3], win, space, 3);
    lemma_pair_verdict(r[4], win, kl, 4);
    lemma_pair_verdict(r[5], win, kr, 5);
    lemma_pair_verdict(r[6], win, ke, 6);
    lemma_pair_verdict(r[7], win, kd, 7);
    lemma_pair_verdict(r[8], alt, tab, 8);
    lemma_pair_verdict(r[9], ctrl, esc, 9);
}

} // verus!

verus! {

/// No accepted combination has the canonical form of a reserved one: every
/// spelling (any modifier order, letter case or alias) of Ctrl+Space,
/// Win+Space, Win+L, Win+R, Win+E, Win+D, Alt+Tab or Ctrl+Esc is refused.
pub proof fn law_accepted_is_never_reserved(c: Seq<char>)
    ensures
        shortcut_verdict(c) == ShortcutVerdict::Accepted ==> forall|j: int|
            0 <= j < reserved_key_forms().len() ==> canonical_combo(trim(c))
                != #[trigger] reserved_key_forms()[j],
{
    lemma_reserved_canonical_forms();
    if shortcut_verdict(c) == ShortcutVerdict::Accepted {
        assert(!is_reserved(trim(c)));
        assert forall|j: int| 0 <= j < reserved_key_forms().len() implies canonical_combo(trim(c))
            != #[trigger] reserved_key_forms()[j] by {
            let idx = if j == 0 {
                0
            } else {
                j + 2
            };
            assert(canonical_combo(reserved_combos()[idx]) == reserved_key_forms()[j]);
        }
    }
}

/// The documented reserved combinations, spelled as documented, are refused
/// as reserved (the lone Win key included).
pub proof fn law_documented_reserved_combos_refused()
    ensures
        shortcut_verdict("Ctrl+Space"@) == ShortcutVerdict::SystemReserved("Ctrl+Space"@),
        shortcut_verdict("Win+Space"@) == ShortcutVerdict::SystemReserved("Win+Space"@),
        shortcut_verdict("Win+L"@) == ShortcutVerdict::SystemReserved("Win+L"@),
        shortcut_verdict("Win+R"@) == ShortcutVerdict::SystemReserved("Win+R"@),
        shortcut_verdict("Win+E"@) == ShortcutVerdict::SystemReserved("Win+E"@),
        shortcut_verdict("Win+D"@) == ShortcutVerdict::SystemReserved("Win+D"@),
        shortcut_verdict("Alt+Tab"@) == ShortcutVerdict::SystemReserved("Alt+Tab"@),
        shortcut_verdict("Ctrl+Esc"@) == ShortcutVerdict::SystemReserved("Ctrl+Esc"@),
        shortcut_verdict("Win"@) == ShortcutVerdict::SystemReserved("Win"@),
{
    lemma_reserved_canonical_forms();
    let r = reserved_combos();
    assert(r[0] == "Ctrl+Space"@);
    assert(r[3] == "Win+Space"@);
    assert(r[4] == "Win+L"@);
    assert(r[5] == "Win+R"@);
    assert(r[6] == "Win+E"@);
    assert(r[7] == "Win+D"@);
    assert(r[8] == "Alt+Tab"@);
    assert(r[9] == "Ctrl+Esc"@);
    reveal_strlit("Win");
    reveal_strlit("win");
    let w = "Win"@;
    assert(crate::text::trim_start(w) == w);
    assert(crate::text::trim_end(w) == w);
    assert(lower(w) =~= "win"@);
}

} // verus!
