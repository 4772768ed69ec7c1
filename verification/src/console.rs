use vstd::prelude::*;
use vstd::string::*;
use std::marker::PhantomData;
use crate::text::{string_from_chars, str_eq};
use crate::format::{Color, Component, ComponentView, Modifier, TextComponent, TextView, ModifierView, component_view, components_view, plain_view};

verus! {

/// The value of a console variable.
pub enum VarState {
    Int(i64),
    Bool(bool),
    Str(String),
}

/// A console variable's value, as a mathematical value.
pub enum VarStateView {
    Int(i64),
    Bool(bool),
    Str(Seq<char>),
}

impl View for VarState {
    type V = VarStateView;

    open spec fn view(&self) -> VarStateView {
        match self {
            VarState::Int(v) => VarStateView::Int(*v),
            VarState::Bool(b) => VarStateView::Bool(*b),
            VarState::Str(s) => VarStateView::Str(s@),
        }
    }
}

/// A type that console variables can hold.
pub trait VarValue: Sized {
    /// The console value that `x` stands for.
    spec fn value_of(x: Self) -> VarStateView;

    /// Whether a console value holds this type.
    spec fn holds(v: VarStateView) -> bool;

    fn to_value(&self) -> (v: VarState)
        ensures
            v@ == Self::value_of(*self),
            Self::holds(v@);

    fn from_value(v: &VarState) -> (r: Option<Self>)
        ensures
            r is Some <==> Self::holds(v@),
            r matches Some(x) ==> Self::value_of(x) == v@;
}

impl VarValue for i64 {
    open spec fn value_of(x: i64) -> VarStateView {
        VarStateView::Int(x)
    }

    open spec fn holds(v: VarStateView) -> bool {
        v is Int
    }

    fn to_value(&self) -> (v: VarState) {
        VarState::Int(*self)
    }

    fn from_value(v: &VarState) -> (r: Option<i64>) {
        match v {
            VarState::Int(x) => Some(*x),
            _ => None,
        }
    }
}

impl VarValue for bool {
    open spec fn value_of(x: bool) -> VarStateView {
        VarStateView::Bool(x)
    }

    open spec fn holds(v: VarStateView) -> bool {
        v is Bool
    }

    fn to_value(&self) -> (v: VarState) {
        VarState::Bool(*self)
    }

    fn from_value(v: &VarState) -> (r: Option<bool>) {
        match v {
            VarState::Bool(x) => Some(*x),
            _ => None,
        }
    }
}

impl VarValue for String {
    open spec fn value_of(x: String) -> VarStateView {
        VarStateView::Str(x@)
    }

    open spec fn holds(v: VarStateView) -> bool {
        v is Str
    }

    fn to_value(&self) -> (v: VarState) {
        VarState::Str(self.clone())
    }

    fn from_value(v: &VarState) -> (r: Option<String>) {
        match v {
            VarState::Str(x) => Some(x.clone()),
            _ => None,
        }
    }
}

/// A console variable: its name, help text, whether it may be changed from
/// the console and saved to the config file, and its default value.
pub struct CVar<T> {
    pub name: &'static str,
    pub ty: PhantomData<T>,
    pub description: &'static str,
    pub mutable: bool,
    pub serializable: bool,
    pub default: T,
}

/// The decimal digit of a value below 10.
pub open spec fn digit_char(d: nat) -> char {
    ((d + 48) as u8) as char
}

/// The decimal digits of `n`, most significant first, without leading zeros.
pub open spec fn decimal_digits(n: nat) -> Seq<char>
    decreases n,
{
    if n < 10 {
        seq![digit_char(n)]
    } else {
        decimal_digits(n / 10).push(digit_char(n % 10))
    }
}

/// The decimal text of an integer, with a leading `-` when negative.
pub open spec fn int_text(v: int) -> Seq<char> {
    if v < 0 {
        seq!['-'] + decimal_digits((-v) as nat)
    } else {
        decimal_digits(v as nat)
    }
}

pub(crate) fn push_digits(n: u64, out: &mut Vec<char>)
    ensures
        final(out)@ == old(out)@ + decimal_digits(n as nat),
    decreases n,
{
    if n >= 10 {
        push_digits(n / 10, out);
    }
    let d = (n % 10) as u8;
    out.push((d + 48) as char);
    proof {
        if n >= 10 {
            assert(decimal_digits(n as nat) == decimal_digits((n / 10) as nat).push(digit_char((n % 10) as nat)));
        }
    }
}

/// The decimal text of an `i64`.
pub fn int_to_string(v: i64) -> (s: String)
    ensures
        s@ == int_text(v as int),
{
    let mut out: Vec<char> = Vec::new();
    if v < 0 {
        out.push('-');
        let m: u64 = (-(v as i128)) as u64;
        push_digits(m, &mut out);
    } else {
        push_digits(v as u64, &mut out);
    }
    proof {
        assert(out@ =~= int_text(v as int));
    }
    string_from_chars(out.as_slice())
}

/// Whether `c` is an ASCII decimal digit.
pub open spec fn is_digit(c: char) -> bool {
    '0' <= c <= '9'
}

/// The value of a run of decimal digits.
pub open spec fn digits_value(s: Seq<char>) -> nat
    decreases s.len(),
{
    if s.len() == 0 {
        0
    } else {
        digits_value(s.drop_last()) * 10 + ((s.last() as u32 - 48) as nat)
    }
}

/// Whether every character of `b` is a decimal digit.
pub open spec fn all_digits(b: Seq<char>) -> bool {
    forall|i: int| 0 <= i < b.len() ==> is_digit(#[trigger] b[i])
}

/// A decimal text without its sign.
pub open spec fn int_body(s: Seq<char>) -> Seq<char> {
    if s.len() > 0 && (s[0] == '-' || s[0] == '+') { s.drop_first() } else { s }
}

/// The integer that a decimal text denotes (an optional sign, then one or
/// more digits), if it is one.
pub open spec fn parse_int_text(s: Seq<char>) -> Option<int> {
    if int_body(s).len() > 0 && all_digits(int_body(s)) {
        Some(if s[0] == '-' { -digits_value(int_body(s)) } else { digits_value(int_body(s)) as int })
    } else {
        None
    }
}

/// Whether `s` is the text of an `i64`.
pub open spec fn is_i64_text(s: Seq<char>) -> bool {
    parse_int_text(s) matches Some(v) && i64::MIN <= v <= i64::MAX
}

proof fn lemma_digits_value_grows(s: Seq<char>, i: int)
    requires
        0 <= i <= s.len(),
        forall|k: int| 0 <= k < s.len() ==> is_digit(#[trigger] s[k]),
    ensures
        digits_value(s.subrange(0, i)) <= digits_value(s),
    decreases s.len() - i,
{
    if i < s.len() {
        lemma_digits_value_grows(s, i + 1);
        assert(s.subrange(0, i + 1).drop_last() =~= s.subrange(0, i));
    } else {
        assert(s.subrange(0, i) =~= s);
    }
}

/// Parses the decimal text of an `i64` (what `str::parse::<i64>` accepts).
pub fn parse_i64(input: &str) -> (v: i64)
    requires
        is_i64_text(input@),
    ensures
        parse_int_text(input@) == Some(v as int),
{
    let chars = crate::text::chars_of(input);
    let n = chars.len();
    let neg = chars[0] == '-';
    let start: usize = if chars[0] == '-' || chars[0] == '+' { 1 } else { 0 };
    let ghost body = int_body(input@);
    proof {
        assert(body =~= input@.subrange(start as int, n as int));
        assert(all_digits(body));
        assert(digits_value(body) <= 0x8000_0000_0000_0000);
        assert(body.subrange(0, 0) =~= Seq::<char>::empty());
    }
    let mut acc: u64 = 0;
    let mut i: usize = start;
    while i < n
        invariant
            chars@ == input@,
            n == input@.len(),
            start <= i <= n,
            body == input@.subrange(start as int, n as int),
            all_digits(body),
            digits_value(body) <= 0x8000_0000_0000_0000,
            acc as nat == digits_value(body.subrange(0, i - start)),
        decreases n - i,
    {
        let c = chars[i];
        proof {
            assert(is_digit(body[i - start]));
            lemma_digits_value_grows(body, i - start + 1);
            assert(body.subrange(0, i - start + 1).drop_last() =~= body.subrange(0, i - start));
        }
        acc = acc * 10 + ((c as u32 - 48) as u64);
        i = i + 1;
    }
    proof {
        assert(body.subrange(0, n - start) =~= body);
    }
    if neg {
        (-(acc as i128)) as i64
    } else {
        acc as i64
    }
}

/// The text that a value is saved as: numbers and booleans as Rust prints
/// them, strings in double quotes.
pub open spec fn value_text(v: VarStateView) -> Seq<char> {
    match v {
        VarStateView::Int(x) => int_text(x as int),
        VarStateView::Bool(b) => if b { seq!['t', 'r', 'u', 'e'] } else { seq!['f', 'a', 'l', 's', 'e'] },
        VarStateView::Str(s) => seq!['"'] + s + seq!['"'],
    }
}

/// How a console variable's value is saved to and read back from text.
pub trait Var {
    /// Whether `val` is of this variable's type.
    spec fn fits(&self, val: VarStateView) -> bool;

    /// Whether `input` is the saved text of a value of this variable's type.
    spec fn readable(&self, input: Seq<char>) -> bool;

    fn serialize(&self, val: &VarState) -> (s: String)
        requires
            self.fits(val@),
        ensures
            s@ == value_text(val@);

    fn deserialize(&self, input: &str) -> (v: VarState)
        requires
            self.readable(input@),
        ensures
            self.fits(v@);

    fn description(&self) -> &'static str;

    fn can_serialize(&self) -> bool;
}

impl Var for CVar<i64> {
    open spec fn fits(&self, val: VarStateView) -> bool {
        val is Int
    }

    open spec fn readable(&self, input: Seq<char>) -> bool {
        is_i64_text(input)
    }

    fn serialize(&self, val: &VarState) -> (s: String) {
        match val {
            VarState::Int(x) => int_to_string(*x),
            _ => String::new(),
        }
    }

    fn deserialize(&self, input: &str) -> (v: VarState)
        ensures
            v matches VarState::Int(x) && parse_int_text(input@) == Some(x as int),
    {
        VarState::Int(parse_i64(input))
    }

    fn description(&self) -> (d: &'static str)
        ensures
            d == self.description,
    {
        self.description
    }

    fn can_serialize(&self) -> (b: bool)
        ensures
            b == self.serializable,
    {
        self.serializable
    }
}

impl Var for CVar<bool> {
    open spec fn fits(&self, val: VarStateView) -> bool {
        val is Bool
    }

    open spec fn readable(&self, input: Seq<char>) -> bool {
        input == "true"@ || input == "false"@
    }

    fn serialize(&self, val: &VarState) -> (s: String) {
        match val {
            VarState::Bool(true) => {
                let s = "true".to_owned();
                proof {
                    reveal_strlit("true");
                }
                s
            },
            _ => {
                let s = "false".to_owned();
                proof {
                    reveal_strlit("false");
                }
                s
            },
        }
    }

    fn deserialize(&self, input: &str) -> (v: VarState)
        ensures
            v matches VarState::Bool(b) && b == (input@ == "true"@),
    {
        let chars = crate::text::chars_of(input);
        proof {
            reveal_strlit("true");
            reveal_strlit("false");
        }
        VarState::Bool(chars.len() == 4)
    }

    fn description(&self) -> (d: &'static str)
        ensures
            d == self.description,
    {
        self.description
    }

    fn can_serialize(&self) -> (b: bool)
        ensures
            b == self.serializable,
    {
        self.serializable
    }
}

impl Var for CVar<String> {
    open spec fn fits(&self, val: VarStateView) -> bool {
        val is Str
    }

    open spec fn readable(&self, input: Seq<char>) -> bool {
        input.len() >= 2 && input[0] as u32 <= 0x7F && input.last() as u32 <= 0x7F
    }

    fn serialize(&self, val: &VarState) -> (s: String) {
        match val {
            VarState::Str(x) => {
                let mut out: Vec<char> = Vec::new();
                out.push('"');
                let body = crate::text::chars_of(x.as_str());
                let mut i: usize = 0;
                while i < body.len()
                    invariant
                        i <= body@.len(),
                        out@ == seq!['"'] + body@.subrange(0, i as int),
                    decreases body@.len() - i,
                {
                    out.push(body[i]);
                    proof {
                        assert(body@.subrange(0, i + 1) =~= body@.subrange(0, i as int).push(body@[i as int]));
                    }
                    i = i + 1;
                }
                out.push('"');
                proof {
                    assert(body@.subrange(0, body@.len() as int) =~= body@);
                    assert(out@ =~= value_text(val@));
                }
                string_from_chars(out.as_slice())
            },
            _ => String::new(),
        }
    }

    fn deserialize(&self, input: &str) -> (v: VarState)
        ensures
            v matches VarState::Str(s) && s@ == input@.subrange(1, input@.len() - 1),
    {
        let chars = crate::text::chars_of(input);
        let n = chars.len();
        let mut out: Vec<char> = Vec::new();
        let mut i: usize = 1;
        while i + 1 < n
            invariant
                chars@ == input@,
                n == input@.len(),
                n >= 2,
                1 <= i <= n - 1,
                out@ == input@.subrange(1, i as int),
            decreases n - i,
        {
            out.push(chars[i]);
            proof {
                assert(input@.subrange(1, i + 1) =~= input@.subrange(1, i as int).push(input@[i as int]));
            }
            i = i + 1;
        }
        VarState::Str(string_from_chars(out.as_slice()))
    }

    fn description(&self) -> (d: &'static str)
        ensures
            d == self.description,
    {
        self.description
    }

    fn can_serialize(&self) -> (b: bool)
        ensures
            b == self.serializable,
    {
        self.serializable
    }
}

/// The position of the first line feed in `s` at or after `k`, or the length.
pub open spec fn first_newline(s: Seq<char>, k: int) -> int
    decreases s.len() - k,
{
    if k < 0 || k >= s.len() {
        s.len() as int
    } else if s[k] == '\n' {
        k
    } else {
        first_newline(s, k + 1)
    }
}

/// Where the first line feed is.
pub proof fn lemma_first_newline(s: Seq<char>, k: int)
    requires
        0 <= k <= s.len(),
    ensures
        k <= first_newline(s, k) <= s.len(),
        first_newline(s, k) < s.len() ==> s[first_newline(s, k)] == '\n',
        forall|j: int| k <= j < first_newline(s, k) ==> s[j] != '\n',
    decreases s.len() - k,
{
    if k < s.len() && s[k] != '\n' {
        lemma_first_newline(s, k + 1);
    }
}

/// A line without the carriage return before its line feed.
pub open spec fn strip_cr(l: Seq<char>) -> Seq<char> {
    if l.len() > 0 && l.last() == '\r' { l.drop_last() } else { l }
}

/// The lines of a text, as `str::lines` gives them: split at line feeds,
/// each without its line ending; a final line ending adds no empty line.
pub open spec fn text_lines(s: Seq<char>) -> Seq<Seq<char>>
    decreases s.len(),
{
    if s.len() == 0 {
        Seq::empty()
    } else {
        let i = first_newline(s, 0);
        if i < s.len() {
            proof {
                lemma_first_newline(s, 0);
            }
            seq![strip_cr(s.subrange(0, i))] + text_lines(s.subrange(i + 1, s.len() as int))
        } else {
            seq![s]
        }
    }
}

/// Each line behind `# `, ended by a line feed.
pub open spec fn comment_lines(lines: Seq<Seq<char>>) -> Seq<char>
    decreases lines.len(),
{
    if lines.len() == 0 {
        Seq::empty()
    } else {
        seq!['#', ' '] + lines[0] + seq!['\n'] + comment_lines(lines.drop_first())
    }
}

/// What the config file holds for a variable: nothing for one that is not
/// saved; else its help text as comments, then its name, a space, its
/// value's text and an empty line.
pub open spec fn entry_text(e: VarEntry) -> Seq<char> {
    if e.serializable {
        comment_lines(text_lines(e.description)) + e.name + seq![' '] + value_text(e.value) + seq!['\n', '\n']
    } else {
        Seq::empty()
    }
}

/// The config file for a list of variables, in order.
pub open spec fn config_text_of(es: Seq<VarEntry>) -> Seq<char>
    decreases es.len(),
{
    if es.len() == 0 {
        Seq::empty()
    } else {
        config_text_of(es.drop_last()) + entry_text(es.last())
    }
}

/// A registered variable and its current value.
struct Entry {
    name: &'static str,
    description: &'static str,
    serializable: bool,
    value: VarState,
}

/// A registered variable: name, help text, whether it is saved, value.
pub struct VarEntry {
    pub name: Seq<char>,
    pub description: Seq<char>,
    pub serializable: bool,
    pub value: VarStateView,
}

/// The store of console variables.
pub struct Console {
    vars: Vec<Entry>,
    history: Vec<Component>,
    active: bool,
}

impl Console {
    /// The names are distinct, and the history holds the last 200 lines.
    pub closed spec fn wf(&self) -> bool {
        &&& forall|i: int, j: int| 0 <= i < j < self.vars@.len() ==> self.vars@[i].name@ != self.vars@[j].name@
        &&& self.history@.len() == 200
    }

    /// Whether the console is open.
    pub closed spec fn spec_active(&self) -> bool {
        self.active
    }

    /// The last 200 log lines, oldest first.
    pub closed spec fn history(&self) -> Seq<ComponentView> {
        components_view(self.history@)
    }

    /// The registered variables by name, with their current values.
    pub closed spec fn view(&self) -> Map<Seq<char>, VarStateView> {
        Map::new(
            |n: Seq<char>| exists|i: int| 0 <= i < self.vars@.len() && self.vars@[i].name@ == n,
            |n: Seq<char>| self.vars@[choose|i: int| 0 <= i < self.vars@.len() && self.vars@[i].name@ == n].value@,
        )
    }

    /// The registered variables in the order they were registered.
    pub closed spec fn entries(&self) -> Seq<VarEntry> {
        Seq::new(self.vars@.len(), |i: int| VarEntry {
            name: self.vars@[i].name@,
            description: self.vars@[i].description@,
            serializable: self.vars@[i].serializable,
            value: self.vars@[i].value@,
        })
    }

    /// The entries and the map agree.
    pub proof fn lemma_entries(&self)
        requires
            self.wf(),
        ensures
            forall|i: int| 0 <= i < self.entries().len() ==> #[trigger] self@.contains_key(self.entries()[i].name)
                && self@[self.entries()[i].name] == self.entries()[i].value,
            forall|n: Seq<char>| #[trigger] self@.contains_key(n) ==> exists|i: int| 0 <= i < self.entries().len()
                && self.entries()[i].name == n,
    {
        assert forall|i: int| 0 <= i < self.entries().len() implies #[trigger] self@.contains_key(self.entries()[i].name)
            && self@[self.entries()[i].name] == self.entries()[i].value by {
            self.lemma_lookup(i);
        }
        assert forall|n: Seq<char>| #[trigger] self@.contains_key(n) implies exists|i: int| 0 <= i < self.entries().len()
            && self.entries()[i].name == n by {
            let i = choose|i: int| 0 <= i < self.vars@.len() && self.vars@[i].name@ == n;
            assert(self.entries()[i].name == n);
        }
    }

    /// A console with no variables.
    pub fn new() -> (c: Console)
        ensures
            c.wf(),
            c@ == Map::<Seq<char>, VarStateView>::empty(),
            c.entries().len() == 0,
            !c.spec_active(),
    {
        let mut history: Vec<Component> = Vec::new();
        let mut k: usize = 0;
        while k < 200
            invariant
                k <= 200,
                history@.len() == k,
            decreases 200 - k,
        {
            history.push(Component::Text(TextComponent::new("")));
            k = k + 1;
        }
        let c = Console { vars: Vec::new(), history, active: false };
        proof {
            assert(c@ =~= Map::<Seq<char>, VarStateView>::empty());
        }
        c
    }

    /// Whether the console is open.
    pub fn is_active(&self) -> (b: bool)
        ensures
            b == self.spec_active(),
    {
        self.active
    }

    /// Opens the console when it is closed, and closes it when it is open.
    pub fn toggle(&mut self)
        ensures
            final(self).spec_active() == !old(self).spec_active(),
            final(self)@ == old(self)@,
            final(self).entries() == old(self).entries(),
            final(self).history() == old(self).history(),
            old(self).wf() ==> final(self).wf(),
    {
        self.active = !self.active;
    }

    fn find(&self, name: &str) -> (r: Option<usize>)
        requires
            self.wf(),
        ensures
            r matches Some(i) ==> i < self.vars@.len() && self.vars@[i as int].name@ == name@,
            r is None ==> !self@.contains_key(name@),
    {
        let mut i: usize = 0;
        while i < self.vars.len()
            invariant
                i <= self.vars@.len(),
                forall|k: int| 0 <= k < i ==> self.vars@[k].name@ != name@,
            decreases self.vars@.len() - i,
        {
            if str_eq(self.vars[i].name, name) {
                return Some(i);
            }
            i = i + 1;
        }
        None
    }

    proof fn lemma_lookup(&self, i: int)
        requires
            self.wf(),
            0 <= i < self.vars@.len(),
        ensures
            self@.contains_key(self.vars@[i].name@),
            self@[self.vars@[i].name@] == self.vars@[i].value@,
    {
        let n = self.vars@[i].name@;
        assert(self@.contains_key(n));
        let j = choose|j: int| 0 <= j < self.vars@.len() && self.vars@[j].name@ == n;
        assert(j == i);
    }

    /// Registers a variable with its default value. Registering a name twice
    /// is a programming error.
    pub fn register<T: VarValue>(&mut self, var: CVar<T>)
        requires
            old(self).wf(),
            !old(self)@.contains_key(var.name@),
        ensures
            final(self).wf(),
            final(self)@ == old(self)@.insert(var.name@, T::value_of(var.default)),
            final(self).spec_active() == old(self).spec_active(),
            final(self).entries() == old(self).entries().push(VarEntry {
                name: var.name@,
                description: var.description@,
                serializable: var.serializable,
                value: T::value_of(var.default),
            }),
    {
        let value = var.default.to_value();
        let ghost before = self.vars@;
        self.vars.push(Entry { name: var.name, description: var.description, serializable: var.serializable, value });
        proof {
            assert forall|i: int| 0 <= i < before.len() implies before[i].name@ != var.name@ by {
                if before[i].name@ == var.name@ {
                    assert(old(self)@.contains_key(var.name@));
                }
            }
            assert forall|n: Seq<char>| #[trigger] self@.contains_key(n) == old(self)@.insert(var.name@, T::value_of(var.default)).contains_key(n) by {
                if old(self)@.contains_key(n) {
                    let i = choose|i: int| 0 <= i < before.len() && before[i].name@ == n;
                    assert(self.vars@[i].name@ == n);
                }
                if self@.contains_key(n) && n != var.name@ {
                    let i = choose|i: int| 0 <= i < self.vars@.len() && self.vars@[i].name@ == n;
                    assert(before[i].name@ == n);
                }
                if n == var.name@ {
                    assert(self.vars@[before.len() as int].name@ == n);
                }
            }
            assert forall|n: Seq<char>| #[trigger] self@.contains_key(n) implies self@[n] == old(self)@.insert(var.name@, T::value_of(var.default))[n] by {
                let i = choose|i: int| 0 <= i < self.vars@.len() && self.vars@[i].name@ == n;
                self.lemma_lookup(i);
                if n != var.name@ {
                    old(self).lemma_lookup(i);
                }
            }
            assert(self@ =~= old(self)@.insert(var.name@, T::value_of(var.default)));
            assert(self.entries() =~= old(self).entries().push(VarEntry {
                name: var.name@,
                description: var.description@,
                serializable: var.serializable,
                value: T::value_of(var.default),
            }));
        }
    }

    /// The current value of a registered variable.
    pub fn get<T: VarValue>(&self, var: CVar<T>) -> (v: T)
        requires
            self.wf(),
            self@.contains_key(var.name@),
            T::holds(self@[var.name@]),
        ensures
            T::value_of(v) == self@[var.name@],
    {
        match self.find(var.name) {
            Some(i) => {
                proof {
                    self.lemma_lookup(i as int);
                }
                match T::from_value(&self.vars[i].value) {
                    Some(x) => x,
                    None => {
                        proof {
                            assert(false);
                        }
                        var.default
                    },
                }
            },
            None => {
                proof {
                    assert(false);
                }
                var.default
            },
        }
    }

    /// Changes the value of a registered variable.
    pub fn set<T: VarValue>(&mut self, var: &CVar<T>, val: T)
        requires
            old(self).wf(),
            old(self)@.contains_key(var.name@),
            T::holds(old(self)@[var.name@]),
        ensures
            final(self).wf(),
            final(self)@ == old(self)@.insert(var.name@, T::value_of(val)),
            final(self).spec_active() == old(self).spec_active(),
            final(self).entries().len() == old(self).entries().len(),
            forall|k: int| 0 <= k < old(self).entries().len() ==> {
                let e = #[trigger] final(self).entries()[k];
                let o = old(self).entries()[k];
                &&& e.name == o.name
                &&& e.description == o.description
                &&& e.serializable == o.serializable
                &&& e.value == if o.name == var.name@ { T::value_of(val) } else { o.value }
            },
    {
        match self.find(var.name) {
            Some(i) => {
                let v = val.to_value();
                let ghost before = self.vars@;
                let e = Entry {
                    name: self.vars[i].name,
                    description: self.vars[i].description,
                    serializable: self.vars[i].serializable,
                    value: v,
                };
                self.vars.set(i, e);
                proof {
                    assert forall|k: int| 0 <= k < self.vars@.len() implies #[trigger] self.vars@[k].name@ == before[k].name@ by {}
                    assert forall|n: Seq<char>| #[trigger] self@.contains_key(n) == old(self)@.contains_key(n) by {
                        if old(self)@.contains_key(n) {
                            let k = choose|k: int| 0 <= k < before.len() && before[k].name@ == n;
                            assert(self.vars@[k].name@ == n);
                        }
                        if self@.contains_key(n) {
                            let k = choose|k: int| 0 <= k < self.vars@.len() && self.vars@[k].name@ == n;
                            assert(before[k].name@ == n);
                        }
                    }
                    assert forall|n: Seq<char>| #[trigger] self@.contains_key(n) implies self@[n] == old(self)@.insert(var.name@, T::value_of(val))[n] by {
                        let k = choose|k: int| 0 <= k < self.vars@.len() && self.vars@[k].name@ == n;
                        self.lemma_lookup(k);
                        if k != i {
                            old(self).lemma_lookup(k);
                        }
                    }
                    assert(self@ =~= old(self)@.insert(var.name@, T::value_of(val)));
                    assert forall|k: int| 0 <= k < before.len() && k != i implies before[k].name@ != var.name@ by {
                        if before[k].name@ == var.name@ {
                            assert(old(self).wf());
                        }
                    }
                }
            },
            None => {},
        }
    }
}


/// Appends `b` to `out`.
fn push_all(out: &mut Vec<char>, b: &Vec<char>)
    ensures
        final(out)@ == old(out)@ + b@,
{
    let mut k: usize = 0;
    while k < b.len()
        invariant
            k <= b@.len(),
            out@ == old(out)@ + b@.subrange(0, k as int),
        decreases b@.len() - k,
    {
        out.push(b[k]);
        proof {
            assert(b@.subrange(0, k + 1) =~= b@.subrange(0, k as int).push(b@[k as int]));
        }
        k = k + 1;
    }
    proof {
        assert(b@.subrange(0, b@.len() as int) =~= b@);
    }
}

/// The help text `d` as comment lines (see `comment_lines`).
fn comment_text(d: &str) -> (r: Vec<char>)
    ensures
        r@ == comment_lines(text_lines(d@)),
{
    let chars = crate::text::chars_of(d);
    let n = chars.len();
    let mut out: Vec<char> = Vec::new();
    let mut start: usize = 0;
    proof {
        assert(chars@.subrange(0, n as int) =~= chars@);
        assert(out@ + comment_lines(text_lines(chars@)) =~= comment_lines(text_lines(chars@)));
    }
    while start < n
        invariant
            n == chars@.len(),
            start <= n,
            out@ + comment_lines(text_lines(chars@.subrange(start as int, n as int)))
                == comment_lines(text_lines(chars@)),
        decreases n - start,
    {
        let ghost rest = chars@.subrange(start as int, n as int);
        let mut end = start;
        while end < n && chars[end] != '\n'
            invariant
                start <= end <= n,
                n == chars@.len(),
                forall|j: int| start <= j < end ==> chars@[j] != '\n',
            decreases n - end,
        {
            end = end + 1;
        }
        proof {
            lemma_first_newline(rest, 0);
            let i = first_newline(rest, 0);
            assert forall|j: int| 0 <= j < end - start implies rest[j] != '\n' by {
                assert(rest[j] == chars@[start + j]);
            }
            if end < n {
                assert(rest[end - start] == '\n');
                if i < end - start {
                    assert(rest[i] == '\n');
                }
            }
            if i < end - start {
                assert(rest[i] != '\n');
            }
            assert(i == end - start);
        }
        let mut line_end = end;
        if end < n && end > start && chars[end - 1] == '\r' {
            line_end = end - 1;
        }
        out.push('#');
        out.push(' ');
        let mut k = start;
        let ghost before = out@;
        while k < line_end
            invariant
                start <= k <= line_end <= n,
                n == chars@.len(),
                out@ == before + chars@.subrange(start as int, k as int),
            decreases line_end - k,
        {
            out.push(chars[k]);
            proof {
                assert(chars@.subrange(start as int, k + 1) =~= chars@.subrange(start as int, k as int).push(chars@[k as int]));
            }
            k = k + 1;
        }
        out.push('\n');
        proof {
            let line = if end < n { strip_cr(rest.subrange(0, end - start)) } else { rest };
            if end < n {
                assert(line =~= chars@.subrange(start as int, line_end as int));
                assert(rest.subrange(end - start + 1, rest.len() as int) =~= chars@.subrange(end + 1, n as int));
                assert(text_lines(rest) == seq![line] + text_lines(chars@.subrange(end + 1, n as int)));
                assert((seq![line] + text_lines(chars@.subrange(end + 1, n as int))).drop_first()
                    =~= text_lines(chars@.subrange(end + 1, n as int)));
            } else {
                assert(line =~= chars@.subrange(start as int, line_end as int));
                assert(text_lines(rest) == seq![line]);
                assert(seq![line].drop_first() =~= Seq::<Seq<char>>::empty());
                assert(chars@.subrange(n as int, n as int) =~= Seq::<char>::empty());
            }
            assert(comment_lines(text_lines(rest)) == seq!['#', ' '] + line + seq!['\n']
                + comment_lines(text_lines(rest).drop_first()));
        }
        if end < n {
            start = end + 1;
        } else {
            start = n;
        }
        proof {
            assert(out@ + comment_lines(text_lines(chars@.subrange(start as int, n as int)))
                =~= before.subrange(0, before.len() - 2) + comment_lines(text_lines(rest)));
        }
    }
    proof {
        assert(chars@.subrange(n as int, n as int) =~= Seq::<char>::empty());
        assert(out@ + Seq::<char>::empty() =~= out@);
    }
    out
}

impl Console {
    /// The text of the config file: each variable that is saved, in the
    /// order of registration (see `entry_text`).
    pub fn config_text(&self) -> (s: String)
        requires
            self.wf(),
        ensures
            s@ == config_text_of(self.entries()),
    {
        let mut out: Vec<char> = Vec::new();
        let mut i: usize = 0;
        while i < self.vars.len()
            invariant
                i <= self.vars@.len(),
                out@ == config_text_of(self.entries().subrange(0, i as int)),
            decreases self.vars@.len() - i,
        {
            let e = &self.vars[i];
            let ghost before = out@;
            if e.serializable {
                let c = comment_text(e.description);
                push_all(&mut out, &c);
                let name = crate::text::chars_of(e.name);
                push_all(&mut out, &name);
                out.push(' ');
                let v = match &e.value {
                    VarState::Int(x) => int_to_string(*x),
                    VarState::Bool(b) => if *b { "true".to_owned() } else { "false".to_owned() },
                    VarState::Str(t) => {
                        let q = CVar::<String> {
                            name: "",
                            ty: PhantomData,
                            description: "",
                            mutable: false,
                            serializable: true,
                            default: String::new(),
                        };
                        q.serialize(&e.value)
                    },
                };
                proof {
                    reveal_strlit("true");
                    reveal_strlit("false");
                }
                let vc = crate::text::chars_of(v.as_str());
                push_all(&mut out, &vc);
                out.push('\n');
                out.push('\n');
            }
            proof {
                let es = self.entries();
                assert(es.subrange(0, i + 1).drop_last() =~= es.subrange(0, i as int));
                assert(es[i as int].value == e.value@);
                assert(out@ =~= before + entry_text(es[i as int]));
            }
            i = i + 1;
        }
        proof {
            assert(self.entries().subrange(0, self.vars@.len() as int) =~= self.entries());
        }
        crate::text::string_from_chars(out.as_slice())
    }
}


/// Whether `s` is the text of an `i64` (see `is_i64_text`).
pub fn is_i64_str(s: &str) -> (b: bool)
    ensures
        b == is_i64_text(s@),
{
    let chars = crate::text::chars_of(s);
    let n = chars.len();
    if n == 0 {
        return false;
    }
    let neg = chars[0] == '-';
    let start: usize = if chars[0] == '-' || chars[0] == '+' { 1 } else { 0 };
    let ghost body = int_body(s@);
    proof {
        assert(body =~= s@.subrange(start as int, n as int));
        assert(body.subrange(0, 0) =~= Seq::<char>::empty());
    }
    if start == n {
        return false;
    }
    let mut acc: u64 = 0;
    let mut i: usize = start;
    while i < n
        invariant
            chars@ == s@,
            n == s@.len(),
            start <= i <= n,
            start < n,
            body == int_body(s@),
            body == s@.subrange(start as int, n as int),
            forall|k: int| 0 <= k < i - start ==> is_digit(#[trigger] body[k]),
            acc as nat == digits_value(body.subrange(0, i - start)),
            acc <= 0x8000_0000_0000_0000,
        decreases n - i,
    {
        let c = chars[i];
        if !('0' <= c && c <= '9') {
            proof {
                assert(body[i - start] == c);
                assert(!all_digits(body));
            }
            return false;
        }
        proof {
            assert(body[i - start] == c);
            assert(body.subrange(0, i - start + 1).drop_last() =~= body.subrange(0, i - start));
        }
        let next: u128 = (acc as u128) * 10 + ((c as u32 - 48) as u128);
        if next > 0x8000_0000_0000_0000 {
            proof {
                if all_digits(body) {
                    lemma_digits_value_grows(body, i - start + 1);
                }
            }
            return false;
        }
        acc = next as u64;
        i = i + 1;
    }
    proof {
        assert(body.subrange(0, n - start) =~= body);
        assert(all_digits(body));
    }
    if neg {
        true
    } else {
        acc <= 0x7fff_ffff_ffff_ffff
    }
}

/// What loading a line of the config file did.
#[derive(Debug, Clone, Copy, PartialEq, Eq, Structural)]
pub enum LineOutcome {
    /// A comment or an empty line.
    Skipped,
    /// The variable was set.
    Applied,
    /// The variable is not saved, so the line is ignored.
    NotSaved,
    /// No variable of that name is registered.
    Missing,
}

/// The position of the first space in `s`, or its length.
pub open spec fn first_space(s: Seq<char>, k: int) -> int
    decreases s.len() - k,
{
    if k < 0 || k >= s.len() {
        s.len() as int
    } else if s[k] == ' ' {
        k
    } else {
        first_space(s, k + 1)
    }
}

proof fn lemma_first_space(s: Seq<char>, k: int)
    requires
        0 <= k <= s.len(),
    ensures
        k <= first_space(s, k) <= s.len(),
        first_space(s, k) < s.len() ==> s[first_space(s, k)] == ' ',
        forall|j: int| k <= j < first_space(s, k) ==> s[j] != ' ',
    decreases s.len() - k,
{
    if k < s.len() && s[k] != ' ' {
        lemma_first_space(s, k + 1);
    }
}

/// A comment (starting with `#`) or an empty line.
pub open spec fn skipped_line(line: Seq<char>) -> bool {
    line.len() == 0 || line[0] == '#'
}

/// The variable name of a config line: the text before the first space.
pub open spec fn line_name(line: Seq<char>) -> Seq<char> {
    line.subrange(0, first_space(line, 0))
}

/// The value text of a config line: the text after the first space.
pub open spec fn line_arg(line: Seq<char>) -> Seq<char> {
    line.subrange(first_space(line, 0) + 1, line.len() as int)
}

/// Whether `arg` is the saved text of a value of the same type as `v`.
pub open spec fn reads_as(v: VarStateView, arg: Seq<char>) -> bool {
    match v {
        VarStateView::Int(_) => is_i64_text(arg),
        VarStateView::Bool(_) => arg == "true"@ || arg == "false"@,
        VarStateView::Str(_) => arg.len() >= 2 && arg[0] as u32 <= 0x7F && arg.last() as u32 <= 0x7F,
    }
}

/// The value that `arg` reads as, for a variable of the same type as `v`.
pub open spec fn read_as(v: VarStateView, arg: Seq<char>) -> VarStateView {
    match v {
        VarStateView::Int(_) => VarStateView::Int(parse_int_text(arg)->0 as i64),
        VarStateView::Bool(_) => VarStateView::Bool(arg == "true"@),
        VarStateView::Str(_) => VarStateView::Str(arg.subrange(1, arg.len() - 1)),
    }
}

/// Whether a config line can be loaded: it is skipped, or it has a space,
/// and where it names a variable, the rest reads as a value of its type.
pub open spec fn line_loadable(m: Map<Seq<char>, VarStateView>, line: Seq<char>) -> bool {
    skipped_line(line) || (first_space(line, 0) < line.len()
        && (m.contains_key(line_name(line)) ==> reads_as(m[line_name(line)], line_arg(line))))
}

impl Console {
    /// Whether `load_line` can take `line` (see `line_loadable`).
    pub fn can_load_line(&self, line: &str) -> (b: bool)
        requires
            self.wf(),
        ensures
            b == line_loadable(self@, line@),
    {
        let chars = crate::text::chars_of(line);
        let n = chars.len();
        if n == 0 || chars[0] == '#' {
            return true;
        }
        let sp = space_position(&chars);
        if sp == n {
            return false;
        }
        let name = crate::text::string_from_chars(vstd::slice::slice_subrange(chars.as_slice(), 0, sp));
        let arg = crate::text::string_from_chars(vstd::slice::slice_subrange(chars.as_slice(), sp + 1, n));
        match self.find(name.as_str()) {
            Some(i) => {
                proof {
                    self.lemma_lookup(i as int);
                }
                match &self.vars[i].value {
                    VarState::Int(_) => is_i64_str(arg.as_str()),
                    VarState::Bool(_) => {
                        proof {
                            reveal_strlit("true");
                            reveal_strlit("false");
                        }
                        str_eq(arg.as_str(), "true") || str_eq(arg.as_str(), "false")
                    },
                    VarState::Str(_) => {
                        let a = crate::text::chars_of(arg.as_str());
                        a.len() >= 2 && (a[0] as u32) <= 0x7F && (a[a.len() - 1] as u32) <= 0x7F
                    },
                }
            },
            None => true,
        }
    }
}

fn space_position(chars: &Vec<char>) -> (r: usize)
    ensures
        r == first_space(chars@, 0),
        r <= chars@.len(),
{
    let mut k: usize = 0;
    while k < chars.len() && chars[k] != ' '
        invariant
            k <= chars@.len(),
            forall|j: int| 0 <= j < k ==> chars@[j] != ' ',
        decreases chars@.len() - k,
    {
        k = k + 1;
    }
    proof {
        lemma_first_space(chars@, 0);
        let f = first_space(chars@, 0);
        if f < k {
            assert(chars@[f] == ' ');
        }
        if k < f {
            assert(chars@[k as int] != ' ');
        }
    }
    k
}


/// Whether the variable named `name` is saved to the config file.
pub open spec fn saved(es: Seq<VarEntry>, name: Seq<char>) -> bool {
    exists|i: int| 0 <= i < es.len() && es[i].name == name && es[i].serializable
}

impl Console {
    fn set_value(&mut self, i: usize, v: VarState)
        requires
            old(self).wf(),
            i < old(self).vars@.len(),
        ensures
            final(self).wf(),
            final(self)@ == old(self)@.insert(old(self).vars@[i as int].name@, v@),
            final(self).spec_active() == old(self).spec_active(),
            final(self).entries().len() == old(self).entries().len(),
            forall|k: int| 0 <= k < old(self).entries().len() ==> {
                let e = #[trigger] final(self).entries()[k];
                let o = old(self).entries()[k];
                &&& e.name == o.name
                &&& e.description == o.description
                &&& e.serializable == o.serializable
                &&& e.value == if o.name == old(self).vars@[i as int].name@ { v@ } else { o.value }
            },
    {
        let ghost before = self.vars@;
        let ghost name = self.vars@[i as int].name@;
        let e = Entry {
            name: self.vars[i].name,
            description: self.vars[i].description,
            serializable: self.vars[i].serializable,
            value: v,
        };
        self.vars.set(i, e);
        proof {
            assert forall|k: int| 0 <= k < self.vars@.len() implies #[trigger] self.vars@[k].name@ == before[k].name@ by {}
            assert forall|n: Seq<char>| #[trigger] self@.contains_key(n) == old(self)@.contains_key(n) by {
                if old(self)@.contains_key(n) {
                    let k = choose|k: int| 0 <= k < before.len() && before[k].name@ == n;
                    assert(self.vars@[k].name@ == n);
                }
                if self@.contains_key(n) {
                    let k = choose|k: int| 0 <= k < self.vars@.len() && self.vars@[k].name@ == n;
                    assert(before[k].name@ == n);
                }
            }
            old(self).lemma_lookup(i as int);
            assert forall|n: Seq<char>| #[trigger] self@.contains_key(n) implies self@[n] == old(self)@.insert(name, v@)[n] by {
                let k = choose|k: int| 0 <= k < self.vars@.len() && self.vars@[k].name@ == n;
                self.lemma_lookup(k);
                if k != i {
                    old(self).lemma_lookup(k);
                }
            }
            assert(self@ =~= old(self)@.insert(name, v@));
            assert forall|k: int| 0 <= k < before.len() && k != i implies before[k].name@ != name by {
                if before[k].name@ == name {
                    assert(old(self).wf());
                }
            }
        }
    }

    /// Loads one line of the config file: comments and empty lines are
    /// skipped; `name value` sets a saved variable to the value read from the
    /// text; a variable that is not saved is left as it is.
    pub fn load_line(&mut self, line: &str) -> (o: LineOutcome)
        requires
            old(self).wf(),
            line_loadable(old(self)@, line@),
        ensures
            final(self).wf(),
            final(self).spec_active() == old(self).spec_active(),
            skipped_line(line@) ==> o == LineOutcome::Skipped && *final(self) == *old(self),
            !skipped_line(line@) && !old(self)@.contains_key(line_name(line@)) ==> o == LineOutcome::Missing
                && *final(self) == *old(self),
            !skipped_line(line@) && old(self)@.contains_key(line_name(line@)) && !saved(old(self).entries(), line_name(line@))
                ==> o == LineOutcome::NotSaved && *final(self) == *old(self),
            !skipped_line(line@) && old(self)@.contains_key(line_name(line@)) && saved(old(self).entries(), line_name(line@))
                ==> o == LineOutcome::Applied && final(self)@ == old(self)@.insert(line_name(line@),
                    read_as(old(self)@[line_name(line@)], line_arg(line@))),
            final(self).entries().len() == old(self).entries().len(),
            forall|k: int| 0 <= k < old(self).entries().len() ==> {
                let e = #[trigger] final(self).entries()[k];
                let oe = old(self).entries()[k];
                &&& e.name == oe.name
                &&& e.description == oe.description
                &&& e.serializable == oe.serializable
                &&& e.value == if o == LineOutcome::Applied && oe.name == line_name(line@) {
                    read_as(oe.value, line_arg(line@))
                } else {
                    oe.value
                }
            },
    {
        let chars = crate::text::chars_of(line);
        let n = chars.len();
        if n == 0 || chars[0] == '#' {
            return LineOutcome::Skipped;
        }
        let sp = space_position(&chars);
        let name = crate::text::string_from_chars(vstd::slice::slice_subrange(chars.as_slice(), 0, sp));
        let arg = crate::text::string_from_chars(vstd::slice::slice_subrange(chars.as_slice(), sp + 1, n));
        match self.find(name.as_str()) {
            Some(i) => {
                proof {
                    self.lemma_lookup(i as int);
                    assert(self.entries()[i as int].name == line_name(line@));
                    if saved(self.entries(), line_name(line@)) {
                        let j = choose|j: int| 0 <= j < self.entries().len() && self.entries()[j].name == line_name(line@)
                            && self.entries()[j].serializable;
                        assert(j == i);
                    }
                }
                if !self.vars[i].serializable {
                    return LineOutcome::NotSaved;
                }
                let v = match &self.vars[i].value {
                    VarState::Int(_) => VarState::Int(parse_i64(arg.as_str())),
                    VarState::Bool(_) => {
                        proof {
                            reveal_strlit("true");
                        }
                        VarState::Bool(str_eq(arg.as_str(), "true"))
                    },
                    VarState::Str(_) => {
                        let a = crate::text::chars_of(arg.as_str());
                        VarState::Str(crate::text::string_from_chars(vstd::slice::slice_subrange(a.as_slice(), 1, a.len() - 1)))
                    },
                };
                self.set_value(i, v);
                LineOutcome::Applied
            },
            None => LineOutcome::Missing,
        }
    }
}


proof fn lemma_decimal_digits(n: nat)
    ensures
        decimal_digits(n).len() > 0,
        all_digits(decimal_digits(n)),
        digits_value(decimal_digits(n)) == n,
    decreases n,
{
    if n < 10 {
        assert(decimal_digits(n).drop_last() =~= Seq::<char>::empty());
        assert(digit_char(n) as u32 == n + 48);
        assert(is_digit(digit_char(n)));
        assert(digits_value(Seq::<char>::empty()) == 0);
        assert(digits_value(decimal_digits(n)) == 0 * 10 + ((digit_char(n) as u32 - 48) as nat));
    } else {
        lemma_decimal_digits(n / 10);
        assert(digit_char(n % 10) as u32 == n % 10 + 48);
        let d = decimal_digits(n);
        assert(d.drop_last() == decimal_digits(n / 10));
        assert(is_digit(digit_char(n % 10)));
        assert(digits_value(d) == digits_value(decimal_digits(n / 10)) * 10 + (n % 10));
        assert((n / 10) * 10 + n % 10 == n) by (nonlinear_arith);
        assert forall|i: int| 0 <= i < d.len() implies is_digit(#[trigger] d[i]) by {
            if i < d.len() - 1 {
                assert(d[i] == decimal_digits(n / 10)[i]);
            }
        }
    }
}

proof fn lemma_int_text_round_trip(x: i64)
    ensures
        is_i64_text(int_text(x as int)),
        parse_int_text(int_text(x as int)) == Some(x as int),
{
    let t = int_text(x as int);
    if x < 0 {
        lemma_decimal_digits((-x) as nat);
        let d = decimal_digits((-x) as nat);
        assert(t == seq!['-'] + d);
        assert(t[0] == '-');
        assert(int_body(t) =~= d);
    } else {
        lemma_decimal_digits(x as nat);
        let d = decimal_digits(x as nat);
        assert(t == d);
        assert(is_digit(d[0]));
        assert(int_body(t) =~= d);
    }
}

/// Reading back the text that a value is saved as gives the value: the
/// config file round trip of one variable.
pub proof fn lemma_value_text_round_trip(v: VarStateView)
    ensures
        reads_as(v, value_text(v)),
        read_as(v, value_text(v)) == v,
{
    match v {
        VarStateView::Int(x) => {
            lemma_int_text_round_trip(x);
        },
        VarStateView::Bool(b) => {
            reveal_strlit("true");
            reveal_strlit("false");
            assert("true"@ =~= seq!['t', 'r', 'u', 'e']);
            assert("false"@ =~= seq!['f', 'a', 'l', 's', 'e']);
            assert("true"@ != "false"@);
        },
        VarStateView::Str(s) => {
            let t = value_text(v);
            assert(t.subrange(1, t.len() - 1) =~= s);
        },
    }
}


/// Reading a variable after setting it gives the value set, and the other
/// variables keep theirs: what `get` returns after `set` (both state their
/// effect on the console's map).
pub proof fn lemma_set_then_get(before: Map<Seq<char>, VarStateView>, name: Seq<char>, v: VarStateView, other: Seq<char>)
    requires
        before.contains_key(name),
    ensures
        before.insert(name, v).contains_key(name),
        before.insert(name, v)[name] == v,
        other != name ==> before.insert(name, v).contains_key(other) == before.contains_key(other),
        other != name && before.contains_key(other) ==> before.insert(name, v)[other] == before[other],
{
}


/// How important a log message is.
#[derive(Debug, Clone, Copy, PartialEq, Eq, Structural)]
pub enum LogLevel {
    Error,
    Warn,
    Info,
    Debug,
    Trace,
}

/// The name a log level is printed with.
pub open spec fn level_name(l: LogLevel) -> Seq<char> {
    match l {
        LogLevel::Error => "ERROR"@,
        LogLevel::Warn => "WARN"@,
        LogLevel::Info => "INFO"@,
        LogLevel::Debug => "DEBUG"@,
        LogLevel::Trace => "TRACE"@,
    }
}

/// The colour a log level is shown in.
pub open spec fn level_color(l: LogLevel) -> Color {
    match l {
        LogLevel::Debug => Color::Green,
        LogLevel::Error => Color::Red,
        LogLevel::Warn => Color::Yellow,
        LogLevel::Info => Color::Aqua,
        LogLevel::Trace => Color::Blue,
    }
}

/// Messages from these modules (by prefix) are not shown.
pub open spec fn filtered_module(m: Seq<char>) -> bool {
    "hyper"@.is_prefix_of(m) || "mime"@.is_prefix_of(m)
}

/// A path with its backslashes turned into slashes.
pub open spec fn with_slashes(f: Seq<char>) -> Seq<char> {
    Seq::new(f.len(), |i: int| if f[i] == '\\' { '/' } else { f[i] })
}

/// The last position at or before `i` where `src/` starts in `f`.
pub open spec fn last_src_from(f: Seq<char>, i: int) -> Option<int>
    decreases i + 1,
{
    if i < 0 {
        None
    } else if i + 4 <= f.len() && f.subrange(i, i + 4) == "src/"@ {
        Some(i)
    } else {
        last_src_from(f, i - 1)
    }
}

/// The source file a log message names: after the last `src/`, if any.
pub open spec fn short_file(file: Seq<char>) -> Seq<char> {
    let g = with_slashes(file);
    match last_src_from(g, g.len() - 4) {
        Some(i) => g.subrange(i + 4, g.len() as int),
        None => g,
    }
}

/// The line printed for a log message: `[file:line][LEVEL] message`.
pub open spec fn log_text(file: Seq<char>, line: u32, level: LogLevel, msg: Seq<char>) -> Seq<char> {
    seq!['['] + short_file(file) + seq![':'] + int_text(line as int) + seq![']', '['] + level_name(level)
        + seq![']', ' '] + msg
}

/// A piece of chat text with only a colour, or no styling at all.
pub open spec fn piece(s: Seq<char>, color: Option<Color>) -> ComponentView {
    ComponentView::Text(TextView {
        text: s,
        modifier: ModifierView {
            extra: None,
            bold: None,
            italic: None,
            underlined: None,
            strikethrough: None,
            obfuscated: None,
            color: color,
        },
    })
}

/// The console line for a log message: `[file:line][LEVEL] message` with the
/// file green, the line number aqua and the level in its colour.
pub open spec fn log_component(file: Seq<char>, line: u32, level: LogLevel, msg: Seq<char>) -> ComponentView {
    ComponentView::Text(TextView {
        text: Seq::empty(),
        modifier: ModifierView {
            extra: Some(seq![
                piece("["@, None),
                piece(short_file(file), Some(Color::Green)),
                piece(":"@, None),
                piece(int_text(line as int), Some(Color::Aqua)),
                piece("]"@, None),
                piece("["@, None),
                piece(level_name(level), Some(level_color(level))),
                piece("] "@, None),
                piece(msg, None),
            ]),
            bold: None,
            italic: None,
            underlined: None,
            strikethrough: None,
            obfuscated: None,
            color: None,
        },
    })
}

fn starts_with(s: &Vec<char>, p: &str) -> (b: bool)
    ensures
        b == p@.is_prefix_of(s@),
{
    let pc = crate::text::chars_of(p);
    if pc.len() > s.len() {
        return false;
    }
    let mut k: usize = 0;
    while k < pc.len()
        invariant
            pc@ == p@,
            pc@.len() <= s@.len(),
            k <= pc@.len(),
            forall|j: int| 0 <= j < k ==> pc@[j] == s@[j],
        decreases pc@.len() - k,
    {
        if pc[k] != s[k] {
            return false;
        }
        k = k + 1;
    }
    true
}

fn colored(text: String, color: Option<Color>) -> (c: Component)
    ensures
        component_view(c) == piece(text@, color),
{
    let mut m = Modifier::default();
    m.color = color;
    Component::Text(TextComponent { text, modifier: m })
}

impl Console {
    /// Records a log message: unless it comes from a filtered module, the
    /// oldest line of the history gives way to the message's console line
    /// (see `log_component`), and the line to print is returned (see `log_text`).
    pub fn log(&mut self, source_module: &str, file: &str, line: u32, level: LogLevel, msg: &str) -> (out: Option<String>)
        requires
            old(self).wf(),
        ensures
            final(self).wf(),
            final(self)@ == old(self)@,
            final(self).entries() == old(self).entries(),
            final(self).spec_active() == old(self).spec_active(),
            filtered_module(source_module@) ==> out is None && final(self).history() == old(self).history(),
            !filtered_module(source_module@) ==> (out matches Some(t) && t@ == log_text(file@, line, level, msg@)),
            !filtered_module(source_module@) ==> final(self).history()
                == old(self).history().drop_first().push(log_component(file@, line, level, msg@)),
    {
        let module = crate::text::chars_of(source_module);
        if starts_with(&module, "hyper") || starts_with(&module, "mime") {
            return None;
        }
        let raw = crate::text::chars_of(file);
        let mut f: Vec<char> = Vec::new();
        let mut k: usize = 0;
        while k < raw.len()
            invariant
                k <= raw@.len(),
                f@ == with_slashes(raw@).subrange(0, k as int),
            decreases raw@.len() - k,
        {
            f.push(if raw[k] == '\\' { '/' } else { raw[k] });
            proof {
                assert(f@ =~= with_slashes(raw@).subrange(0, k + 1));
            }
            k = k + 1;
        }
        proof {
            assert(f@ =~= with_slashes(raw@));
            reveal_strlit("src/");
        }
        let n = f.len();
        let mut start: usize = 0;
        if n >= 4 {
            let mut i: usize = n - 4;
            loop
                invariant_except_break
                    i <= n - 4,
                    start == 0,
                    last_src_from(f@, (n - 4) as int) == last_src_from(f@, i as int),
                invariant
                    f@ == with_slashes(file@),
                    n == f@.len(),
                    n >= 4,
                ensures
                    (start == 0 && last_src_from(f@, (n - 4) as int) is None)
                        || (4 <= start <= n && last_src_from(f@, (n - 4) as int) == Some(start - 4)),
                decreases i,
            {
                proof {
                    reveal_strlit("src/");
                }
                if f[i] == 's' && f[i + 1] == 'r' && f[i + 2] == 'c' && f[i + 3] == '/' {
                    proof {
                        assert(f@.subrange(i as int, i + 4) =~= "src/"@);
                    }
                    start = i + 4;
                    break;
                }
                proof {
                    assert(f@.subrange(i as int, i + 4) != "src/"@) by {
                        if f@.subrange(i as int, i + 4) == "src/"@ {
                            assert(f@.subrange(i as int, i + 4)[0] == f@[i as int]);
                            assert(f@.subrange(i as int, i + 4)[1] == f@[i + 1]);
                            assert(f@.subrange(i as int, i + 4)[2] == f@[i + 2]);
                            assert(f@.subrange(i as int, i + 4)[3] == f@[i + 3]);
                        }
                    }
                }
                if i == 0 {
                    proof {
                        assert(last_src_from(f@, -1) is None);
                    }
                    break;
                }
                i = i - 1;
            }
        }
        let short = string_from_chars(vstd::slice::slice_subrange(f.as_slice(), start, n));
        proof {
            if n < 4 {
                assert(last_src_from(f@, n - 4) is None);
            }
            assert(short@ == short_file(file@));
        }
        let line_text = int_to_string(line as i64);
        let level_text = match level {
            LogLevel::Error => "ERROR",
            LogLevel::Warn => "WARN",
            LogLevel::Info => "INFO",
            LogLevel::Debug => "DEBUG",
            LogLevel::Trace => "TRACE",
        };
        let color = match level {
            LogLevel::Debug => Color::Green,
            LogLevel::Error => Color::Red,
            LogLevel::Warn => Color::Yellow,
            LogLevel::Info => Color::Aqua,
            LogLevel::Trace => Color::Blue,
        };
        let mut printed: Vec<char> = Vec::new();
        printed.push('[');
        let sc = crate::text::chars_of(short.as_str());
        push_all(&mut printed, &sc);
        printed.push(':');
        let lc = crate::text::chars_of(line_text.as_str());
        push_all(&mut printed, &lc);
        printed.push(']');
        printed.push('[');
        let vc = crate::text::chars_of(level_text);
        push_all(&mut printed, &vc);
        printed.push(']');
        printed.push(' ');
        let mc = crate::text::chars_of(msg);
        push_all(&mut printed, &mc);
        proof {
            assert(printed@ =~= log_text(file@, line, level, msg@));
        }
        let mut extra: Vec<Component> = Vec::new();
        extra.push(colored("[".to_owned(), None));
        extra.push(colored(short, Some(Color::Green)));
        extra.push(colored(":".to_owned(), None));
        extra.push(colored(line_text, Some(Color::Aqua)));
        extra.push(colored("]".to_owned(), None));
        extra.push(colored("[".to_owned(), None));
        extra.push(colored(level_text.to_owned(), Some(color)));
        extra.push(colored("] ".to_owned(), None));
        extra.push(colored(msg.to_owned(), None));
        let mut m = Modifier::default();
        m.extra = Some(extra);
        let entry = Component::Text(TextComponent { text: String::new(), modifier: m });
        proof {
            assert(component_view(entry) == log_component(file@, line, level, msg@)) by {
                assert(components_view(extra@) =~= seq![
                    piece("["@, None),
                    piece(short_file(file@), Some(Color::Green)),
                    piece(":"@, None),
                    piece(int_text(line as int), Some(Color::Aqua)),
                    piece("]"@, None),
                    piece("["@, None),
                    piece(level_name(level), Some(level_color(level))),
                    piece("] "@, None),
                    piece(msg@, None),
                ]) by {
                    crate::format::lemma_components_view_index_pub(extra@);
                }
            }
        }
        let ghost old_history = self.history@;
        self.history.remove(0);
        self.history.push(entry);
        proof {
            assert(self.history@ =~= old_history.drop_first().push(entry));
            crate::format::lemma_components_view_index_pub(old_history);
            crate::format::lemma_components_view_index_pub(self.history@);
            assert(self.history() =~= old(self).history().drop_first().push(log_component(file@, line, level, msg@)));
        }
        Some(string_from_chars(printed.as_slice()))
    }
}

} // verus!
