//! Keyboard input gates: binding a key by double click, and the short label
//! each one shows.
use vstd::prelude::*;
use vstd::string::*;

verus! {

/// State of a keyboard input gate.
pub struct InputGate<K> {
    /// The key that drives it, or `None` while none is bound.
    pub bound_key: Option<K>,
    /// `true` while it waits for a new key.
    pub editing: bool,
}

/// The last click on an input gate, with the time at which it happened.
pub struct LastClick<T> {
    pub entity: Option<u64>,
    pub at: T,
}

/// What a left click means to the input gates.
#[derive(Clone, Copy, Debug, PartialEq, Eq, Structural)]
pub enum ClickOutcome {
    /// Second click on the same gate in quick succession: that gate starts
    /// waiting for a key.
    StartEditing(u64),
    /// First click on a gate: remembered, to detect a double click.
    Remember(u64),
    /// Click on no gate: every gate stops waiting for a key.
    StopEditing,
}

/// The meaning of a click on `hovered` (the first gate under the cursor), given
/// the last click and whether it was recent enough to form a double click.
pub open spec fn click_outcome(last: Option<u64>, hovered: Option<u64>, recent: bool) -> ClickOutcome {
    match hovered {
        Some(e) => if last == Some(e) && recent {
            ClickOutcome::StartEditing(e)
        } else {
            ClickOutcome::Remember(e)
        },
        None => ClickOutcome::StopEditing,
    }
}

/// Detects a double click on an input gate.  `recent` tells whether the last
/// click is recent enough; `now` is the time of this click and `reset` the
/// time stored when a double click completes.
pub fn handle_double_click<T: Copy>(
    last: &mut LastClick<T>,
    hovered: Option<u64>,
    recent: bool,
    now: T,
    reset: T,
) -> (r: ClickOutcome)
    ensures
        r == click_outcome(old(last).entity, hovered, recent),
        match r {
            ClickOutcome::StartEditing(_) => final(last).entity is None && final(last).at == reset,
            ClickOutcome::Remember(e) => final(last).entity == Some(e) && final(last).at == now,
            ClickOutcome::StopEditing => final(last).entity == old(last).entity && final(last).at
                == old(last).at,
        },
{
    match hovered {
        Some(e) => {
            let same = match last.entity {
                Some(l) => l == e,
                None => false,
            };
            if same && recent {
                last.entity = None;
                last.at = reset;
                ClickOutcome::StartEditing(e)
            } else {
                last.entity = Some(e);
                last.at = now;
                ClickOutcome::Remember(e)
            }
        },
        None => ClickOutcome::StopEditing,
    }
}

impl<K: Copy> InputGate<K> {
    /// A gate with no key bound, not waiting for one.
    pub fn new() -> (r: Self)
        ensures
            r.bound_key is None,
            !r.editing,
    {
        InputGate { bound_key: None, editing: false }
    }

    /// Applies a click outcome to the input gate carried by `entity`.
    pub fn apply_click(&mut self, entity: u64, outcome: ClickOutcome)
        ensures
            final(self).bound_key == old(self).bound_key,
            final(self).editing == match outcome {
                ClickOutcome::StartEditing(e) => e == entity || old(self).editing,
                ClickOutcome::Remember(_) => old(self).editing,
                ClickOutcome::StopEditing => false,
            },
    {
        match outcome {
            ClickOutcome::StartEditing(e) => {
                if e == entity {
                    self.editing = true;
                }
            },
            ClickOutcome::Remember(_) => {},
            ClickOutcome::StopEditing => {
                self.editing = false;
            },
        }
    }

    /// While this gate waits for a key, binds the first key pressed this
    /// frame (`key`) and stops waiting.
    pub fn capture_key_binding(&mut self, key: Option<K>)
        ensures
            (old(self).editing && key is Some) ==> final(self).bound_key == key
                && !final(self).editing,
            !(old(self).editing && key is Some) ==> final(self).bound_key == old(self).bound_key
                && final(self).editing == old(self).editing,
    {
        if self.editing {
            match key {
                Some(k) => {
                    self.bound_key = Some(k);
                    self.editing = false;
                },
                None => {},
            }
        }
    }
}

/// `s` with every occurrence of `pat` taken out, scanning left to right
/// (occurrences do not overlap).
pub open spec fn without(s: Seq<char>, pat: Seq<char>) -> Seq<char>
    decreases s.len(),
{
    if s.len() == 0 {
        s
    } else if 0 < pat.len() <= s.len() && s.take(pat.len() as int) == pat {
        without(s.skip(pat.len() as int), pat)
    } else {
        seq![s[0]] + without(s.skip(1), pat)
    }
}

/// At most the first three characters of `s`.
pub open spec fn first_three(s: Seq<char>) -> Seq<char> {
    if s.len() <= 3 {
        s
    } else {
        s.take(3)
    }
}

/// Fixed labels of the keys that have one.
pub open spec fn special_label(name: Seq<char>) -> Option<Seq<char>> {
    if name == seq!['S', 'p', 'a', 'c', 'e'] {
        Some(seq!['S', 'P', 'C'])
    } else if name == seq!['E', 'n', 't', 'e', 'r'] {
        Some(seq!['E', 'N', 'T'])
    } else if name == seq!['B', 'a', 'c', 'k', 's', 'p', 'a', 'c', 'e'] {
        Some(seq!['B', 'S', 'P'])
    } else if name == seq!['A', 'r', 'r', 'o', 'w', 'U', 'p'] {
        Some(seq!['\u{2191}'])
    } else if name == seq!['A', 'r', 'r', 'o', 'w', 'D', 'o', 'w', 'n'] {
        Some(seq!['\u{2193}'])
    } else if name == seq!['A', 'r', 'r', 'o', 'w', 'L', 'e', 'f', 't'] {
        Some(seq!['\u{2190}'])
    } else if name == seq!['A', 'r', 'r', 'o', 'w', 'R', 'i', 'g', 'h', 't'] {
        Some(seq!['\u{2192}'])
    } else if name == seq!['S', 'h', 'i', 'f', 't', 'L', 'e', 'f', 't'] || name == seq![
        'S',
        'h',
        'i',
        'f',
        't',
        'R',
        'i',
        'g',
        'h',
        't',
    ] {
        Some(seq!['S', 'H', 'F'])
    } else if name == seq!['C', 'o', 'n', 't', 'r', 'o', 'l', 'L', 'e', 'f', 't'] || name == seq![
        'C',
        'o',
        'n',
        't',
        'r',
        'o',
        'l',
        'R',
        'i',
        'g',
        'h',
        't',
    ] {
        Some(seq!['C', 'T', 'L'])
    } else if name == seq!['A', 'l', 't', 'L', 'e', 'f', 't'] || name == seq![
        'A',
        'l',
        't',
        'R',
        'i',
        'g',
        'h',
        't',
    ] {
        Some(seq!['A', 'L', 'T'])
    } else {
        None
    }
}

/// The short label (three characters at most) of the key whose name is
/// `name`: a fixed label for a few keys; otherwise the name without `Key`
/// and `Digit`, cut to three characters.
pub open spec fn key_label(name: Seq<char>) -> Seq<char> {
    match special_label(name) {
        Some(l) => l,
        None => first_three(
            without(without(name, seq!['K', 'e', 'y']), seq!['D', 'i', 'g', 'i', 't']),
        ),
    }
}

/// Whether `s[at..]` starts with `pat`.
fn starts_with_at(s: &Vec<char>, at: usize, pat: &Vec<char>) -> (r: bool)
    requires
        at <= s.len(),
    ensures
        r == (pat.len() <= s.len() - at && s@.skip(at as int).take(pat.len() as int) == pat@),
{
    if pat.len() > s.len() - at {
        return false;
    }
    let mut i: usize = 0;
    while i < pat.len()
        invariant
            pat.len() <= s.len() - at,
            i <= pat.len(),
            forall|k: int| 0 <= k < i ==> s@[at + k] == pat@[k],
        decreases pat.len() - i,
    {
        if s[at + i] != pat[i] {
            assert(s@.skip(at as int).take(pat.len() as int)[i as int] != pat@[i as int]);
            return false;
        }
        i = i + 1;
    }
    assert(s@.skip(at as int).take(pat.len() as int) =~= pat@);
    true
}

proof fn lemma_without_skip(s: Seq<char>, pat: Seq<char>, i: int)
    requires
        0 <= i < s.len(),
    ensures
        0 < pat.len() <= s.skip(i).len() && s.skip(i).take(pat.len() as int) == pat ==> without(
            s.skip(i),
            pat,
        ) == without(s.skip(i + pat.len()), pat),
        !(0 < pat.len() <= s.skip(i).len() && s.skip(i).take(pat.len() as int) == pat) ==> without(
            s.skip(i),
            pat,
        ) == seq![s[i]] + without(s.skip(i + 1), pat),
{
    if pat.len() <= s.skip(i).len() {
        assert(s.skip(i).skip(pat.len() as int) =~= s.skip(i + pat.len()));
    }
    assert(s.skip(i).skip(1) =~= s.skip(i + 1));
}

/// `s` with every occurrence of `pat` taken out.
fn remove_all(s: &Vec<char>, pat: &Vec<char>) -> (r: Vec<char>)
    requires
        pat.len() > 0,
    ensures
        r@ == without(s@, pat@),
{
    let mut out: Vec<char> = Vec::new();
    let mut i: usize = 0;
    assert(s@.skip(0) =~= s@);
    while i < s.len()
        invariant
            pat.len() > 0,
            i <= s.len(),
            out@ + without(s@.skip(i as int), pat@) == without(s@, pat@),
        decreases s.len() - i,
    {
        proof {
            lemma_without_skip(s@, pat@, i as int);
        }
        if starts_with_at(s, i, pat) {
            i = i + pat.len();
        } else {
            let ghost before = out@;
            out.push(s[i]);
            assert(before + (seq![s@[i as int]] + without(s@.skip(i + 1), pat@)) =~= out@
                + without(s@.skip(i + 1), pat@));
            i = i + 1;
        }
    }
    assert(s@.skip(i as int) =~= Seq::<char>::empty());
    assert(out@ + Seq::<char>::empty() =~= out@);
    out
}

/// The characters of `s`.
fn chars_of(s: &str) -> (r: Vec<char>)
    ensures
        r@ == s@,
{
    let n = s.unicode_len();
    let mut out: Vec<char> = Vec::new();
    let mut i: usize = 0;
    while i < n
        invariant
            n == s@.len(),
            i <= n,
            out@ == s@.take(i as int),
        decreases n - i,
    {
        out.push(s.get_char(i));
        i = i + 1;
        assert(out@ =~= s@.take(i as int));
    }
    assert(s@.take(n as int) =~= s@);
    out
}

/// The string made of the characters `v`.
fn string_of(v: &Vec<char>) -> (r: String)
    ensures
        r@ == v@,
{
    let mut out = String::new();
    let mut i: usize = 0;
    while i < v.len()
        invariant
            i <= v.len(),
            out@ == v@.take(i as int),
        decreases v.len() - i,
    {
        push_char(&mut out, v[i]);
        i = i + 1;
        assert(out@ =~= v@.take(i as int));
    }
    assert(v@.take(v.len() as int) =~= v@);
    out
}

/// The string holding the single character `c`.
fn char_string(c: char) -> (r: String)
    ensures
        r@ == seq![c],
{
    let mut out = String::new();
    push_char(&mut out, c);
    assert(out@ =~= seq![c]);
    out
}

/// `String::push`: appends the character `c` to the end of `s`.
#[verifier::external_body]
fn push_char(s: &mut String, c: char)
    ensures
        final(s)@ == old(s)@.push(c),
{
    s.push(c);
}

fn vec_eq(a: &Vec<char>, b: &Vec<char>) -> (r: bool)
    ensures
        r == (a@ == b@),
{
    if a.len() != b.len() {
        return false;
    }
    let mut i: usize = 0;
    while i < a.len()
        invariant
            a.len() == b.len(),
            i <= a.len(),
            forall|k: int| 0 <= k < i ==> a@[k] == b@[k],
        decreases a.len() - i,
    {
        if a[i] != b[i] {
            return false;
        }
        i = i + 1;
    }
    assert(a@ =~= b@);
    true
}

fn special_key_label(name: &Vec<char>) -> (r: Option<Vec<char>>)
    ensures
        match special_label(name@) {
            Some(l) => r matches Some(v) && v@ == l,
            None => r is None,
        },
{
    if vec_eq(name, &vec!['S', 'p', 'a', 'c', 'e']) {
        Some(vec!['S', 'P', 'C'])
    } else if vec_eq(name, &vec!['E', 'n', 't', 'e', 'r']) {
        Some(vec!['E', 'N', 'T'])
    } else if vec_eq(name, &vec!['B', 'a', 'c', 'k', 's', 'p', 'a', 'c', 'e']) {
        Some(vec!['B', 'S', 'P'])
    } else if vec_eq(name, &vec!['A', 'r', 'r', 'o', 'w', 'U', 'p']) {
        Some(vec!['\u{2191}'])
    } else if vec_eq(name, &vec!['A', 'r', 'r', 'o', 'w', 'D', 'o', 'w', 'n']) {
        Some(vec!['\u{2193}'])
    } else if vec_eq(name, &vec!['A', 'r', 'r', 'o', 'w', 'L', 'e', 'f', 't']) {
        Some(vec!['\u{2190}'])
    } else if vec_eq(name, &vec!['A', 'r', 'r', 'o', 'w', 'R', 'i', 'g', 'h', 't']) {
        Some(vec!['\u{2192}'])
    } else if vec_eq(name, &vec!['S', 'h', 'i', 'f', 't', 'L', 'e', 'f', 't']) || vec_eq(
        name,
        &vec!['S', 'h', 'i', 'f', 't', 'R', 'i', 'g', 'h', 't'],
    ) {
        Some(vec!['S', 'H', 'F'])
    } else if vec_eq(name, &vec!['C', 'o', 'n', 't', 'r', 'o', 'l', 'L', 'e', 'f', 't'])
        || vec_eq(name, &vec!['C', 'o', 'n', 't', 'r', 'o', 'l', 'R', 'i', 'g', 'h', 't']) {
        Some(vec!['C', 'T', 'L'])
    } else if vec_eq(name, &vec!['A', 'l', 't', 'L', 'e', 'f', 't']) || vec_eq(
        name,
        &vec!['A', 'l', 't', 'R', 'i', 'g', 'h', 't'],
    ) {
        Some(vec!['A', 'L', 'T'])
    } else {
        None
    }
}

/// The short label (three characters at most) of the key whose debug name is
/// `name`.
pub fn keycode_label(name: &str) -> (r: String)
    ensures
        r@ == key_label(name@),
{
    let chars = chars_of(name);
    match special_key_label(&chars) {
        Some(l) => string_of(&l),
        None => {
            let a = remove_all(&chars, &vec!['K', 'e', 'y']);
            let b = remove_all(&a, &vec!['D', 'i', 'g', 'i', 't']);
            let mut short: Vec<char> = Vec::new();
            let mut i: usize = 0;
            while i < b.len() && i < 3
                invariant
                    i <= b.len(),
                    i <= 3,
                    short@ == b@.take(i as int),
                decreases 3 - i,
            {
                short.push(b[i]);
                i = i + 1;
                assert(short@ =~= b@.take(i as int));
            }
            assert(short@ =~= first_three(b@));
            string_of(&short)
        },
    }
}

/// The text shown on an input gate: `_` while it waits for a key, else the
/// label of its key, or `?` when none is bound.  `bound_key_name` is the
/// debug name of the bound key.
pub fn key_label_text(editing: bool, bound_key_name: Option<&str>) -> (r: String)
    ensures
        r@ == (if editing {
            seq!['_']
        } else {
            match bound_key_name {
                Some(n) => key_label(n@),
                None => seq!['?'],
            }
        }),
{
    if editing {
        char_string('_')
    } else {
        match bound_key_name {
            Some(n) => keycode_label(n),
            None => char_string('?'),
        }
    }
}

} // verus!
