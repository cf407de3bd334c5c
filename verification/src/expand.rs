//! Expansion of variable references in a text.
//!
//! A text is read once from left to right. `$$` stands for a `$`. `$(NAME)`
//! and `${NAME}` stand for the variable `NAME`, where `NAME` is itself
//! expanded first. `$X`, for any other character `X`, stands for the variable
//! named by that one character. A deferred variable fetched by `$(NAME)` or
//! `${NAME}` has its value expanded in turn.

use crate::text::{chars_of, string_of};
use crate::vars::{lookup, VarView, Vars};
use vstd::prelude::*;
use vstd::string::StringExecFns;

verus! {

/// How many deferred variables may be expanded inside one another. A chain
/// of deferred variables that is longer, such as one that refers to itself,
/// ends the expansion with an error.
pub const MAX_DEPTH: usize = 128;

/// An expression that was opened and not yet closed: the text gathered before
/// its opening delimiter, and that delimiter.
pub struct FrameView {
    pub before: Seq<char>,
    pub opener: char,
}

/// The state of the reader between two characters.
pub struct Scan {
    /// The open expressions, the innermost last.
    pub stack: Seq<FrameView>,
    /// The text gathered since the innermost open expression began.
    pub buffer: Seq<char>,
    /// Whether the last character read was a `$` that still awaits its partner.
    pub pending: bool,
}

/// The state before the first character.
pub open spec fn start() -> Scan {
    Scan { stack: Seq::empty(), buffer: Seq::empty(), pending: false }
}

/// Whether `close` is the closing delimiter that belongs to `open`.
pub open spec fn closes(open: char, close: char) -> bool {
    (open == '(' && close == ')') || (open == '{' && close == '}')
}

/// The error for an expression that is still open at the end of the text.
pub open spec fn unclosed(frame: FrameView) -> Seq<char> {
    "Unclosed variable: "@ + seq![frame.opener] + frame.before
}

/// The error for deferred variables nested deeper than `MAX_DEPTH`.
pub open spec fn too_deep() -> Seq<char> {
    "Variable expansion is nested too deeply."@
}

/// The result at the end of the text: the gathered text, or, where an
/// expression is still open, the error that names the outermost open one.
pub open spec fn finish(st: Scan) -> Result<Seq<char>, Seq<char>> {
    if st.stack.len() == 0 {
        Ok(st.buffer)
    } else {
        Err(unclosed(st.stack[0]))
    }
}

/// The result of reading `s` from its character `i` on, in state `st`, where
/// deferred variables may still be nested `fuel` deep.
pub open spec fn expand_from(
    s: Seq<char>,
    i: int,
    st: Scan,
    vars: Map<Seq<char>, VarView>,
    fuel: nat,
) -> Result<Seq<char>, Seq<char>>
    decreases fuel, s.len() - i,
{
    if i < 0 || i >= s.len() {
        finish(st)
    } else {
        let c = s[i];
        if c == '$' {
            if st.pending {
                expand_from(
                    s,
                    i + 1,
                    Scan { buffer: st.buffer.push('$'), pending: false, ..st },
                    vars,
                    fuel,
                )
            } else {
                expand_from(s, i + 1, Scan { pending: true, ..st }, vars, fuel)
            }
        } else if (c == '(' || c == '{') && st.pending {
            expand_from(
                s,
                i + 1,
                Scan {
                    stack: st.stack.push(FrameView { before: st.buffer, opener: c }),
                    buffer: Seq::empty(),
                    pending: false,
                },
                vars,
                fuel,
            )
        } else if (c == ')' || c == '}') && st.stack.len() > 0 && closes(st.stack.last().opener, c) {
            let var = lookup(vars, st.buffer);
            let value = if !var.recursive {
                Ok(var.value)
            } else if fuel == 0 {
                Err(too_deep())
            } else {
                expand_from(var.value, 0, start(), vars, (fuel - 1) as nat)
            };
            match value {
                Ok(text) => expand_from(
                    s,
                    i + 1,
                    Scan {
                        stack: st.stack.drop_last(),
                        buffer: st.stack.last().before + text,
                        pending: false,
                    },
                    vars,
                    fuel,
                ),
                Err(e) => Err(e),
            }
        } else if c == '(' || c == '{' || c == ')' || c == '}' {
            expand_from(s, i + 1, Scan { buffer: st.buffer.push(c), ..st }, vars, fuel)
        } else if st.pending {
            expand_from(
                s,
                i + 1,
                Scan { buffer: st.buffer + lookup(vars, seq![c]).value, pending: false, ..st },
                vars,
                fuel,
            )
        } else {
            expand_from(s, i + 1, Scan { buffer: st.buffer.push(c), ..st }, vars, fuel)
        }
    }
}

/// The expansion of `s` against `vars`, or the error that ends it.
pub open spec fn expansion(s: Seq<char>, vars: Map<Seq<char>, VarView>) -> Result<
    Seq<char>,
    Seq<char>,
> {
    expand_from(s, 0, start(), vars, MAX_DEPTH as nat)
}

/// Whether `r` is the result `expected`, text for text.
pub open spec fn is_result(r: Result<String, String>, expected: Result<Seq<char>, Seq<char>>) -> bool {
    match expected {
        Ok(text) => r is Ok && r->Ok_0@ == text,
        Err(e) => r is Err && r->Err_0@ == e,
    }
}

/// An open expression, as the reader holds it.
struct Frame {
    before: Vec<char>,
    opener: char,
}

impl View for Frame {
    type V = FrameView;

    closed spec fn view(&self) -> FrameView {
        FrameView { before: self.before@, opener: self.opener }
    }
}

/// What a stack of open expressions is to the contracts.
spec fn frames(stack: Seq<Frame>) -> Seq<FrameView> {
    stack.map_values(|f: Frame| f@)
}

/// Expands the characters `s`, with deferred variables nested at most `fuel`
/// deep.
fn expand_chars(s: &Vec<char>, vars: &Vars, fuel: usize) -> (r: Result<Vec<char>, String>)
    ensures
        match expand_from(s@, 0, start(), vars@, fuel as nat) {
            Ok(text) => r is Ok && r->Ok_0@ == text,
            Err(e) => r is Err && r->Err_0@ == e,
        },
    decreases fuel,
{
    let mut stack: Vec<Frame> = Vec::new();
    let mut buffer: Vec<char> = Vec::new();
    let mut pending = false;
    let mut i: usize = 0;
    assert(frames(stack@) =~= Seq::<FrameView>::empty());
    while i < s.len()
        invariant
            i <= s.len(),
            expand_from(s@, 0, start(), vars@, fuel as nat) == expand_from(
                s@,
                i as int,
                Scan { stack: frames(stack@), buffer: buffer@, pending },
                vars@,
                fuel as nat,
            ),
        decreases s.len() - i,
    {
        let c = s[i];
        let ghost st = Scan { stack: frames(stack@), buffer: buffer@, pending };
        if c == '$' {
            if pending {
                buffer.push(c);
            }
            pending = !pending;
        } else if (c == '(' || c == '{') && pending {
            let mut before: Vec<char> = Vec::new();
            std::mem::swap(&mut before, &mut buffer);
            let frame = Frame { before, opener: c };
            assert(frames(stack@.push(frame)) =~= frames(stack@).push(frame@));
            stack.push(frame);
            pending = false;
        } else if (c == ')' || c == '}') && stack.len() > 0 && ((c == ')' && stack[stack.len()
            - 1].opener == '(') || (c == '}' && stack[stack.len() - 1].opener == '{')) {
            assert(frames(stack@).last() == stack@.last()@);
            let name = string_of(&buffer);
            let var = vars.get(name.as_str());
            let mut text: Vec<char> = if !var.recursive {
                chars_of(var.value.as_str())
            } else if fuel == 0 {
                return Err(String::from_str("Variable expansion is nested too deeply."));
            } else {
                let inner = chars_of(var.value.as_str());
                match expand_chars(&inner, vars, fuel - 1) {
                    Ok(text) => text,
                    Err(e) => {
                        return Err(e);
                    },
                }
            };
            let frame = stack.pop().unwrap();
            assert(frames(stack@) =~= st.stack.drop_last());
            buffer = frame.before;
            buffer.append(&mut text);
            pending = false;
        } else if c == '(' || c == '{' || c == ')' || c == '}' {
            buffer.push(c);
        } else if pending {
            let mut name = String::new();
            name.push(c);
            assert(name@ == seq![c]);
            let var = vars.get(name.as_str());
            let mut text = chars_of(var.value.as_str());
            buffer.append(&mut text);
            pending = false;
        } else {
            buffer.push(c);
        }
        i += 1;
    }
    if stack.len() == 0 {
        Ok(buffer)
    } else {
        let frame = &stack[0];
        assert(frames(stack@)[0] == frame@);
        let mut msg = String::from_str("Unclosed variable: ");
        msg.push(frame.opener);
        let before = string_of(&frame.before);
        msg.append(before.as_str());
        Err(msg)
    }
}

/// Expands the variable references of `s` against `vars`.
///
/// A `)` or `}` that closes no open expression of its own kind is text, and
/// leaves a `$` before it waiting for the next character. A variable fetched
/// by a single character is never expanded again. An expression left open at
/// the end of `s` is an error that names the outermost such expression.
pub fn expand(s: &str, vars: &Vars) -> (r: Result<String, String>)
    ensures
        is_result(r, expansion(s@, vars@)),
{
    let chars = chars_of(s);
    match expand_chars(&chars, vars, MAX_DEPTH) {
        Ok(text) => Ok(string_of(&text)),
        Err(e) => Err(e),
    }
}

/// Whether `c` is none of the characters that the reader treats specially.
pub open spec fn plain(c: char) -> bool {
    c != '$' && c != '(' && c != ')' && c != '{' && c != '}'
}

/// `$$` followed by any character but `$` expands to `$` and that character.
pub proof fn lemma_escaped_dollar(x: char, vars: Map<Seq<char>, VarView>)
    requires
        x != '$',
    ensures
        expansion(seq!['$', '$', x], vars) == Ok::<Seq<char>, Seq<char>>(seq!['$', x]),
{
    let s = seq!['$', '$', x];
    let fuel = MAX_DEPTH as nat;
    let s1 = Scan { pending: true, ..start() };
    let s2 = Scan { buffer: start().buffer.push('$'), pending: false, ..s1 };
    let s3 = Scan { buffer: s2.buffer.push(x), ..s2 };
    assert(expand_from(s, 0, start(), vars, fuel) == expand_from(s, 1, s1, vars, fuel));
    assert(expand_from(s, 1, s1, vars, fuel) == expand_from(s, 2, s2, vars, fuel));
    assert(expand_from(s, 2, s2, vars, fuel) == expand_from(s, 3, s3, vars, fuel));
    assert(expand_from(s, 3, s3, vars, fuel) == finish(s3));
    assert(s3.buffer =~= seq!['$', x]);
}

/// Reading `n` plain characters with no `$` waiting appends them to the
/// buffer.
pub proof fn lemma_plain_run(
    s: Seq<char>,
    i: int,
    n: nat,
    st: Scan,
    vars: Map<Seq<char>, VarView>,
    fuel: nat,
)
    requires
        0 <= i,
        i + n <= s.len(),
        !st.pending,
        forall|k: int| i <= k < i + n ==> plain(#[trigger] s[k]),
    ensures
        expand_from(s, i, st, vars, fuel) == expand_from(
            s,
            i + n,
            Scan { buffer: st.buffer + s.subrange(i, i + n), ..st },
            vars,
            fuel,
        ),
    decreases n,
{
    if n == 0 {
        assert(st.buffer + s.subrange(i, i) =~= st.buffer);
    } else {
        assert(plain(s[i]));
        let next = Scan { buffer: st.buffer.push(s[i]), ..st };
        assert(expand_from(s, i, st, vars, fuel) == expand_from(s, i + 1, next, vars, fuel));
        lemma_plain_run(s, i + 1, (n - 1) as nat, next, vars, fuel);
        assert(next.buffer + s.subrange(i + 1, i + n) =~= st.buffer + s.subrange(i, i + n));
    }
}

/// A reference `$(NAME)` or `${NAME}` to an immediate variable, where the
/// name is made of plain characters, expands to the variable's value.
pub proof fn lemma_reference_is_value(
    name: Seq<char>,
    open: char,
    close: char,
    vars: Map<Seq<char>, VarView>,
)
    requires
        closes(open, close),
        forall|k: int| 0 <= k < name.len() ==> plain(#[trigger] name[k]),
        !lookup(vars, name).recursive,
    ensures
        expansion(seq!['$', open] + name + seq![close], vars) == Ok::<Seq<char>, Seq<char>>(
            lookup(vars, name).value,
        ),
{
    let s = seq!['$', open] + name + seq![close];
    let fuel = MAX_DEPTH as nat;
    let n = name.len() as int;
    let s1 = Scan { pending: true, ..start() };
    let frame = FrameView { before: Seq::empty(), opener: open };
    let s2 = Scan { stack: seq![frame], buffer: Seq::empty(), pending: false };
    assert(s[0] == '$');
    assert(s[1] == open);
    assert(expand_from(s, 0, start(), vars, fuel) == expand_from(s, 1, s1, vars, fuel));
    assert(s1.stack.push(frame) =~= seq![frame]);
    assert(expand_from(s, 1, s1, vars, fuel) == expand_from(s, 2, s2, vars, fuel));
    assert forall|k: int| 2 <= k < 2 + n implies plain(#[trigger] s[k]) by {
        assert(s[k] == name[k - 2]);
    }
    lemma_plain_run(s, 2, name.len(), s2, vars, fuel);
    assert(s.subrange(2, 2 + n) =~= name);
    let s3 = Scan { buffer: name, ..s2 };
    assert(s2.buffer + s.subrange(2, 2 + n) =~= name);
    assert(s[2 + n] == close);
    let value = lookup(vars, name).value;
    let s4 = Scan { stack: Seq::empty(), buffer: value, pending: false };
    assert(s3.stack.last() == frame);
    assert(s3.stack.drop_last() =~= Seq::<FrameView>::empty());
    assert(frame.before + value =~= value);
    assert(expand_from(s, 2 + n, s3, vars, fuel) == expand_from(s, 3 + n, s4, vars, fuel));
    assert(expand_from(s, 3 + n, s4, vars, fuel) == finish(s4));
}

/// A text without `$` expands to itself.
pub proof fn lemma_text_without_dollar_is_itself(s: Seq<char>, vars: Map<Seq<char>, VarView>)
    requires
        forall|k: int| 0 <= k < s.len() ==> #[trigger] s[k] != '$',
    ensures
        expansion(s, vars) == Ok::<Seq<char>, Seq<char>>(s),
{
    lemma_undisturbed_run(s, 0, start(), vars, MAX_DEPTH as nat);
    assert(start().buffer + s.subrange(0, s.len() as int) =~= s);
}

/// With no expression open and no `$` waiting, reading characters other than
/// `$` appends them to the buffer.
proof fn lemma_undisturbed_run(
    s: Seq<char>,
    i: int,
    st: Scan,
    vars: Map<Seq<char>, VarView>,
    fuel: nat,
)
    requires
        0 <= i <= s.len(),
        !st.pending,
        st.stack.len() == 0,
        forall|k: int| i <= k < s.len() ==> #[trigger] s[k] != '$',
    ensures
        expand_from(s, i, st, vars, fuel) == Ok::<Seq<char>, Seq<char>>(
            st.buffer + s.subrange(i, s.len() as int),
        ),
    decreases s.len() - i,
{
    if i == s.len() {
        assert(st.buffer + s.subrange(i, s.len() as int) =~= st.buffer);
    } else {
        assert(s[i] != '$');
        let next = Scan { buffer: st.buffer.push(s[i]), ..st };
        assert(expand_from(s, i, st, vars, fuel) == expand_from(s, i + 1, next, vars, fuel));
        lemma_undisturbed_run(s, i + 1, next, vars, fuel);
        assert(next.buffer + s.subrange(i + 1, s.len() as int) =~= st.buffer + s.subrange(
            i,
            s.len() as int,
        ));
    }
}

/// The room that the `$` signs of `s` from its character `i` on may take,
/// where one reference takes at most `m` characters.
pub open spec fn budget(s: Seq<char>, i: int, m: nat) -> nat
    decreases s.len() - i,
{
    if i < 0 || i >= s.len() {
        0
    } else if s[i] == '$' {
        m + budget(s, i + 1, m)
    } else {
        budget(s, i + 1, m)
    }
}

/// The characters held by the open expressions `stack`, with room for one
/// reference of at most `m` characters for each.
pub open spec fn held(stack: Seq<FrameView>, m: nat) -> nat
    decreases stack.len(),
{
    if stack.len() == 0 {
        0
    } else {
        held(stack.drop_last(), m) + stack.last().before.len() + m
    }
}

/// Whether what the name `name` stands for takes at most `m` characters: its
/// value as it is, and, for a deferred variable, its value expanded with
/// deferred variables nested at most `fuel` deep.
pub open spec fn value_fits(vars: Map<Seq<char>, VarView>, name: Seq<char>, fuel: nat, m: nat) -> bool {
    let var = lookup(vars, name);
    &&& var.value.len() <= m
    &&& var.recursive ==> match expand_from(var.value, 0, start(), vars, fuel) {
        Ok(text) => text.len() <= m,
        Err(_) => true,
    }
}

/// Whether what any name stands for takes at most `m` characters.
pub open spec fn fits(vars: Map<Seq<char>, VarView>, m: nat) -> bool {
    forall|name: Seq<char>, fuel: nat| #[trigger] value_fits(vars, name, fuel, m)
}

/// Where what any name stands for takes at most `m` characters, a text that
/// expands does so to at most its own length and `m` more for each of its `$`
/// signs.
pub proof fn lemma_expansion_bounded(s: Seq<char>, vars: Map<Seq<char>, VarView>, m: nat)
    requires
        fits(vars, m),
    ensures
        expansion(s, vars) is Ok ==> expansion(s, vars)->Ok_0.len() <= s.len() + budget(s, 0, m),
{
    lemma_bounded_from(s, 0, start(), vars, m, MAX_DEPTH as nat);
}

proof fn lemma_bounded_from(
    s: Seq<char>,
    i: int,
    st: Scan,
    vars: Map<Seq<char>, VarView>,
    m: nat,
    fuel: nat,
)
    requires
        fits(vars, m),
        0 <= i <= s.len(),
    ensures
        expand_from(s, i, st, vars, fuel) is Ok ==> expand_from(s, i, st, vars, fuel)->Ok_0.len()
            <= st.buffer.len() + held(st.stack, m) + (s.len() - i) + budget(s, i, m) + (if st.pending {
            m
        } else {
            0
        }),
    decreases s.len() - i,
{
    if i < s.len() {
        let c = s[i];
        if c == '$' {
            if st.pending {
                lemma_bounded_from(
                    s,
                    i + 1,
                    Scan { buffer: st.buffer.push('$'), pending: false, ..st },
                    vars,
                    m,
                    fuel,
                );
            } else {
                lemma_bounded_from(s, i + 1, Scan { pending: true, ..st }, vars, m, fuel);
            }
        } else if (c == '(' || c == '{') && st.pending {
            let frame = FrameView { before: st.buffer, opener: c };
            let next = Scan { stack: st.stack.push(frame), buffer: Seq::empty(), pending: false };
            assert(next.stack.drop_last() =~= st.stack);
            lemma_bounded_from(s, i + 1, next, vars, m, fuel);
        } else if (c == ')' || c == '}') && st.stack.len() > 0 && closes(
            st.stack.last().opener,
            c,
        ) {
            let var = lookup(vars, st.buffer);
            if !var.recursive {
                assert(value_fits(vars, st.buffer, 0, m));
                let next = Scan {
                    stack: st.stack.drop_last(),
                    buffer: st.stack.last().before + var.value,
                    pending: false,
                };
                lemma_bounded_from(s, i + 1, next, vars, m, fuel);
            } else if fuel > 0 {
                assert(value_fits(vars, st.buffer, (fuel - 1) as nat, m));
                match expand_from(var.value, 0, start(), vars, (fuel - 1) as nat) {
                    Ok(text) => {
                        let next = Scan {
                            stack: st.stack.drop_last(),
                            buffer: st.stack.last().before + text,
                            pending: false,
                        };
                        lemma_bounded_from(s, i + 1, next, vars, m, fuel);
                    },
                    Err(_) => {},
                }
            }
        } else if c == '(' || c == '{' || c == ')' || c == '}' {
            lemma_bounded_from(s, i + 1, Scan { buffer: st.buffer.push(c), ..st }, vars, m, fuel);
        } else if st.pending {
            let var = lookup(vars, seq![c]);
            assert(value_fits(vars, seq![c], 0, m));
            lemma_bounded_from(
                s,
                i + 1,
                Scan { buffer: st.buffer + var.value, pending: false, ..st },
                vars,
                m,
                fuel,
            );
        } else {
            lemma_bounded_from(s, i + 1, Scan { buffer: st.buffer.push(c), ..st }, vars, m, fuel);
        }
    }
}

} // verus!
