use vstd::prelude::*;
use crate::strmap::StrMap;
use crate::text::{string_views, chars_of, string_of, chars_eq, push_all, push_str, pad_left, usize_dec};

verus! {

/// What an argument value holds.
pub ghost enum ArgVal {
    Bool(bool),
    Int(i64),
    Str(Seq<char>),
    List(Seq<Seq<char>>),
    Empty,
}

/// The value given for an option on the command line.
#[derive(Clone, Debug, PartialEq, Eq)]
pub enum ArgValue {
    Bool(bool),
    Int(i64),
    String(String),
    List(Vec<String>),
    Empty,
}

impl View for ArgValue {
    type V = ArgVal;

    open spec fn view(&self) -> ArgVal {
        match self {
            ArgValue::Bool(b) => ArgVal::Bool(*b),
            ArgValue::Int(i) => ArgVal::Int(*i),
            ArgValue::String(s) => ArgVal::Str(s@),
            ArgValue::List(v) => ArgVal::List(string_views(v@)),
            ArgValue::Empty => ArgVal::Empty,
        }
    }
}

impl ArgValue {
    /// The value of a flag.
    pub fn as_bool(&self) -> (res: Option<bool>)
        ensures
            res == (match self {
                ArgValue::Bool(b) => Some(*b),
                _ => None,
            }),
    {
        match self {
            ArgValue::Bool(value) => Some(*value),
            _ => None,
        }
    }

    /// The text of a single string value.
    pub fn as_str(&self) -> (res: Option<&str>)
        ensures
            match self {
                ArgValue::String(s) => res matches Some(r) && r@ == s@,
                _ => res is None,
            },
    {
        match self {
            ArgValue::String(value) => Some(value.as_str()),
            _ => None,
        }
    }

    /// The text of a single string value, by value.
    pub fn into_string(self) -> (res: Option<String>)
        ensures
            match self {
                ArgValue::String(s) => res == Some(s),
                _ => res is None,
            },
    {
        match self {
            ArgValue::String(value) => Some(value),
            _ => None,
        }
    }

    /// The values of a repeated option; a single string counts as a list of one.
    pub fn into_list(self) -> (res: Option<Vec<String>>)
        ensures
            match self {
                ArgValue::List(v) => res == Some(v),
                ArgValue::String(s) => res matches Some(r) && r@ == seq![s],
                _ => res is None,
            },
    {
        match self {
            ArgValue::List(value) => Some(value),
            ArgValue::String(value) => Some(vec![value]),
            _ => None,
        }
    }
}

/// Parsed options, keyed by their names without leading dashes and with `-`
/// turned into `_`.
pub type ParsedArgs = StrMap<ArgValue>;

#[derive(Clone, Copy, Debug, PartialEq, Eq)]
pub enum ValueKind {
    String,
    Int,
}

/// One option of a command: an argument that takes a value, or a flag.
#[derive(Clone, Debug)]
pub struct OptionSpec {
    pub name: &'static str,
    pub alt_name: Option<&'static str>,
    pub help: &'static str,
    pub required: bool,
    pub repetitive: bool,
    pub value_kind: ValueKind,
    pub default: Option<ArgValue>,
    pub empty_value: Option<ArgValue>,
    pub flag_value: Option<ArgValue>,
}

impl OptionSpec {
    /// An optional argument that takes a string value.
    pub fn argument(name: &'static str, help: &'static str) -> (res: Self)
        ensures
            res.name == name,
            res.alt_name is None,
            res.help == help,
            !res.required,
            !res.repetitive,
            res.value_kind == ValueKind::String,
            res.default is None,
            res.empty_value is None,
            res.flag_value is None,
    {
        OptionSpec {
            name,
            alt_name: None,
            help,
            required: false,
            repetitive: false,
            value_kind: ValueKind::String,
            default: None,
            empty_value: None,
            flag_value: None,
        }
    }

    /// A flag: `false` unless given, `true` when given.
    pub fn flag(name: &'static str, help: &'static str) -> (res: Self)
        ensures
            res.name == name,
            res.alt_name is None,
            res.help == help,
            !res.required,
            !res.repetitive,
            res.value_kind == ValueKind::String,
            res.default == Some(ArgValue::Bool(false)),
            res.empty_value is None,
            res.flag_value == Some(ArgValue::Bool(true)),
    {
        OptionSpec {
            name,
            alt_name: None,
            help,
            required: false,
            repetitive: false,
            value_kind: ValueKind::String,
            default: Some(ArgValue::Bool(false)),
            empty_value: None,
            flag_value: Some(ArgValue::Bool(true)),
        }
    }

    /// The same option, also known by the short name `alt_name`.
    pub fn alt(self, alt_name: &'static str) -> (res: Self)
        ensures
            res == (OptionSpec { alt_name: Some(alt_name), ..self }),
    {
        let mut s = self;
        s.alt_name = Some(alt_name);
        s
    }

    /// The same option, required.
    pub fn required(self) -> (res: Self)
        ensures
            res == (OptionSpec { required: true, ..self }),
    {
        let mut s = self;
        s.required = true;
        s
    }

    /// The same option, which may be given several times.
    pub fn repetitive(self) -> (res: Self)
        ensures
            res == (OptionSpec { repetitive: true, ..self }),
    {
        let mut s = self;
        s.repetitive = true;
        s
    }

    /// The same option, taking `value` when it is given without one.
    pub fn empty_value(self, value: ArgValue) -> (res: Self)
        ensures
            res == (OptionSpec { empty_value: Some(value), ..self }),
    {
        let mut s = self;
        s.empty_value = Some(value);
        s
    }

    /// The same option, taking `value` when it is not given.
    pub fn default_value(self, value: ArgValue) -> (res: Self)
        ensures
            res == (OptionSpec { default: Some(value), ..self }),
    {
        let mut s = self;
        s.default = Some(value);
        s
    }

    /// The same option, whose value is an integer.
    pub fn integer(self) -> (res: Self)
        ensures
            res == (OptionSpec { value_kind: ValueKind::Int, ..self }),
    {
        let mut s = self;
        s.value_kind = ValueKind::Int;
        s
    }
}

/// A command with its arguments and flags.
#[derive(Clone, Debug)]
pub struct CommandSpec {
    pub name: &'static str,
    pub help: &'static str,
    pub first_arg: Option<&'static str>,
    pub arguments: Vec<OptionSpec>,
    pub flags: Vec<OptionSpec>,
}

impl CommandSpec {
    /// A command without options.
    pub fn new(name: &'static str, help: &'static str) -> (res: Self)
        ensures
            res.name == name,
            res.help == help,
            res.first_arg is None,
            res.arguments@.len() == 0,
            res.flags@.len() == 0,
    {
        CommandSpec { name, help, first_arg: None, arguments: Vec::new(), flags: Vec::new() }
    }

    /// The same command, where a value given before any option belongs to `first_arg`.
    pub fn first_arg(self, first_arg: &'static str) -> (res: Self)
        ensures
            res == (CommandSpec { first_arg: Some(first_arg), ..self }),
    {
        let mut s = self;
        s.first_arg = Some(first_arg);
        s
    }

    /// The same command with one more argument.
    pub fn argument(self, spec: OptionSpec) -> (res: Self)
        ensures
            res.name == self.name,
            res.help == self.help,
            res.first_arg == self.first_arg,
            res.arguments@ == self.arguments@.push(spec),
            res.flags@ == self.flags@,
    {
        let mut s = self;
        s.arguments.push(spec);
        s
    }

    /// The same command with one more flag.
    pub fn flag(self, spec: OptionSpec) -> (res: Self)
        ensures
            res.name == self.name,
            res.help == self.help,
            res.first_arg == self.first_arg,
            res.arguments@ == self.arguments@,
            res.flags@ == self.flags@.push(spec),
    {
        let mut s = self;
        s.flags.push(spec);
        s
    }
}


// ---------------------------------------------------------------------------
// What parsing does
// ---------------------------------------------------------------------------

/// The arguments, then the flags, of a command.
pub open spec fn specs_of(c: CommandSpec) -> Seq<OptionSpec> {
    c.arguments@ + c.flags@
}

/// The first option of `s` named `n`.
pub open spec fn named(s: Seq<OptionSpec>, n: Seq<char>) -> Option<OptionSpec>
    decreases s.len(),
{
    if s.len() == 0 {
        None
    } else if s[0].name@ == n {
        Some(s[0])
    } else {
        named(s.skip(1), n)
    }
}

pub open spec fn is_known(c: CommandSpec, n: Seq<char>) -> bool {
    named(c.arguments@, n) is Some || named(c.flags@, n) is Some
}

/// The first command named `n`.
pub open spec fn command_named(cmds: Seq<CommandSpec>, n: Seq<char>) -> Option<CommandSpec>
    decreases cmds.len(),
{
    if cmds.len() == 0 {
        None
    } else if cmds[0].name@ == n {
        Some(cmds[0])
    } else {
        command_named(cmds.skip(1), n)
    }
}

pub open spec fn mget(m: Map<Seq<char>, ArgVal>, k: Seq<char>) -> Option<ArgVal> {
    if m.dom().contains(k) {
        Some(m[k])
    } else {
        None
    }
}

pub open spec fn opt_view(o: Option<ArgValue>) -> Option<ArgVal> {
    match o {
        Some(v) => Some(v@),
        None => None,
    }
}

/// `items` with every `from` replaced by `to`.
pub open spec fn rename_items(items: Seq<Seq<char>>, from: Seq<char>, to: Seq<char>) -> Seq<Seq<char>> {
    items.map_values(|x: Seq<char>| if x == from { to } else { x })
}

/// `items` with the short names of `specs` replaced by their names, one
/// option after the other.
pub open spec fn apply_alts(items: Seq<Seq<char>>, specs: Seq<OptionSpec>) -> Seq<Seq<char>>
    decreases specs.len(),
{
    if specs.len() == 0 {
        items
    } else {
        let prev = apply_alts(items, specs.drop_last());
        match specs.last().alt_name {
            Some(a) => rename_items(prev, a@, specs.last().name@),
            None => prev,
        }
    }
}

/// The defaults of `specs`, a later option overriding an earlier one of the same name.
pub open spec fn defaults(specs: Seq<OptionSpec>) -> Map<Seq<char>, ArgVal>
    decreases specs.len(),
{
    if specs.len() == 0 {
        Map::empty()
    } else {
        let prev = defaults(specs.drop_last());
        match specs.last().default {
            Some(d) => prev.insert(specs.last().name@, d@),
            None => prev,
        }
    }
}

/// The input once the first argument's name is put in front of a leading value.
pub open spec fn with_first_arg(c: CommandSpec, items: Seq<Seq<char>>) -> Seq<Seq<char>> {
    match c.first_arg {
        Some(f) => if items.len() == 0 {
            seq![f@]
        } else if !is_known(c, items[0]) {
            seq![f@] + items
        } else {
            items
        },
        None => items,
    }
}

/// The input that the parser walks through.
pub open spec fn prepared_input(c: CommandSpec, rest: Seq<Seq<char>>) -> Seq<Seq<char>> {
    with_first_arg(c, apply_alts(rest, specs_of(c)))
}

/// Stores `v` for option `s`: a repetitive option collects string values in a list.
pub open spec fn insert_value_spec(m: Map<Seq<char>, ArgVal>, s: OptionSpec, v: ArgVal) -> Map<
    Seq<char>,
    ArgVal,
> {
    let n = s.name@;
    if s.repetitive {
        let add = match v {
            ArgVal::Str(x) => seq![x],
            _ => Seq::empty(),
        };
        match mget(m, n) {
            Some(ArgVal::List(vs)) => m.insert(n, ArgVal::List(vs + add)),
            Some(ArgVal::Str(p)) => m.insert(n, ArgVal::List(seq![p] + add)),
            _ => m.insert(n, ArgVal::List(add)),
        }
    } else {
        m.insert(n, v)
    }
}

pub open spec fn flag_value_spec(f: OptionSpec) -> ArgVal {
    match f.flag_value {
        Some(v) => v@,
        None => ArgVal::Bool(true),
    }
}

/// The value that `item` gives for option `s`: the text itself, or an integer.
pub open spec fn convert_spec(s: OptionSpec, item: Seq<char>) -> Option<ArgVal> {
    match s.value_kind {
        ValueKind::String => Some(ArgVal::Str(item)),
        ValueKind::Int => match crate::text::parse_i64_spec(item) {
            Some(i) => Some(ArgVal::Int(i)),
            None => None,
        },
    }
}

pub open spec fn quoted(s: Seq<char>) -> Seq<char> {
    seq!['"'] + s + seq!['"']
}

pub open spec fn msg_unexpected_value(item: Seq<char>, name: Seq<char>) -> Seq<char> {
    "Unexpected value "@ + quoted(item) + " for argument "@ + quoted(name)
}

pub open spec fn msg_unexpected_argument(item: Seq<char>, command: Seq<char>) -> Seq<char> {
    "Unexpected argument "@ + quoted(item) + " for command "@ + quoted(command)
}

pub open spec fn msg_missing(name: Seq<char>, command: Seq<char>) -> Seq<char> {
    "Not found required argument "@ + quoted(name) + " for command "@ + quoted(command)
}

pub open spec fn msg_unexpected_command(name: Seq<char>) -> Seq<char> {
    "Unexpected command "@ + quoted(name)
}

/// The parser's state: the values so far and the argument waiting for its value.
pub type ParseState = (Map<Seq<char>, ArgVal>, Option<OptionSpec>);

/// One step of the parser over `item`; an error is the message.
pub open spec fn step_spec(c: CommandSpec, st: ParseState, item: Seq<char>) -> Result<
    ParseState,
    Seq<char>,
> {
    let (m, active) = st;
    match active {
        Some(a) => if is_known(c, item) {
            match a.empty_value {
                Some(ev) => {
                    let m1 = insert_value_spec(m, a, ev@);
                    let next = named(c.arguments@, item);
                    if next is None && named(c.flags@, item) is Some {
                        let f = named(c.flags@, item)->0;
                        Ok((m1.insert(f.name@, flag_value_spec(f)), None))
                    } else {
                        Ok((m1, next))
                    }
                },
                None => Err(msg_unexpected_value(item, a.name@)),
            }
        } else {
            match convert_spec(a, item) {
                Some(v) => Ok((insert_value_spec(m, a, v), None)),
                None => Err(msg_unexpected_value(item, a.name@)),
            }
        },
        None => if named(c.arguments@, item) is Some {
            Ok((m, named(c.arguments@, item)))
        } else if named(c.flags@, item) is Some {
            let f = named(c.flags@, item)->0;
            Ok((m.insert(f.name@, flag_value_spec(f)), None))
        } else {
            Err(msg_unexpected_argument(item, c.name@))
        },
    }
}

/// The parser's state after walking through `items`.
pub open spec fn run_spec(c: CommandSpec, items: Seq<Seq<char>>) -> Result<ParseState, Seq<char>>
    decreases items.len(),
{
    if items.len() == 0 {
        Ok((defaults(specs_of(c)), None))
    } else {
        match run_spec(c, items.drop_last()) {
            Ok(st) => step_spec(c, st, items.last()),
            Err(e) => Err(e),
        }
    }
}

/// The first required option of `specs` that `items` does not name.
pub open spec fn first_missing(specs: Seq<OptionSpec>, items: Seq<Seq<char>>) -> Option<OptionSpec>
    decreases specs.len(),
{
    if specs.len() == 0 {
        None
    } else if specs[0].required && !items.contains(specs[0].name@) {
        Some(specs[0])
    } else {
        first_missing(specs.skip(1), items)
    }
}

/// The values, before key normalisation, or the error message.
pub open spec fn values_spec(c: CommandSpec, items: Seq<Seq<char>>) -> Result<
    Map<Seq<char>, ArgVal>,
    Seq<char>,
> {
    match run_spec(c, items) {
        Err(e) => Err(e),
        Ok((m, active)) => {
            let done = match active {
                Some(a) => match a.empty_value {
                    Some(ev) => Ok(insert_value_spec(m, a, ev@)),
                    None => Err(msg_unexpected_value(Seq::empty(), a.name@)),
                },
                None => Ok(m),
            };
            match done {
                Err(e) => Err(e),
                Ok(m2) => match first_missing(specs_of(c), items) {
                    Some(s) => Err(msg_missing(s.name@, c.name@)),
                    None => Ok(m2),
                },
            }
        },
    }
}

/// The items that give option `name` each of `vs` in turn: `name v1 name v2 ..`.
pub open spec fn repeated_items(name: Seq<char>, vs: Seq<Seq<char>>) -> Seq<Seq<char>>
    decreases vs.len(),
{
    if vs.len() == 0 {
        Seq::empty()
    } else {
        repeated_items(name, vs.drop_last()) + seq![name, vs.last()]
    }
}

proof fn lemma_named_has_name(s: Seq<OptionSpec>, n: Seq<char>)
    ensures
        named(s, n) matches Some(o) ==> o.name@ == n,
    decreases s.len(),
{
    if s.len() > 0 && s[0].name@ != n {
        lemma_named_has_name(s.skip(1), n);
    }
}

/// A repetitive string option given once for each of `vs` (none of them an
/// option's name) collects all of them, in the order given: its value is the
/// list `vs`, whatever else the command has.
pub proof fn lemma_repeated_option_collects(c: CommandSpec, name: Seq<char>, vs: Seq<Seq<char>>)
    requires
        named(c.arguments@, name) matches Some(s) && s.repetitive && s.value_kind == ValueKind::String,
        mget(defaults(specs_of(c)), name) is None,
        forall|i: int| 0 <= i < vs.len() ==> !is_known(c, #[trigger] vs[i]),
    ensures
        vs.len() > 0 ==> match run_spec(c, repeated_items(name, vs)) {
            Ok((m, active)) => active is None && mget(m, name) == Some(ArgVal::List(vs)),
            Err(_) => false,
        },
        vs.len() > 0 && first_missing(specs_of(c), repeated_items(name, vs)) is None ==> match values_spec(
            c,
            repeated_items(name, vs),
        ) {
            Ok(m) => mget(m, name) == Some(ArgVal::List(vs)),
            Err(_) => false,
        },
    decreases vs.len(),
{
    if vs.len() > 0 {
        let s = named(c.arguments@, name)->0;
        lemma_named_has_name(c.arguments@, name);
        let init = vs.drop_last();
        let v = vs.last();
        assert forall|i: int| 0 <= i < init.len() implies !is_known(c, #[trigger] init[i]) by {
            assert(init[i] == vs[i]);
        }
        lemma_repeated_option_collects(c, name, init);
        let items = repeated_items(name, vs);
        let before = repeated_items(name, init);
        assert(items.drop_last() =~= before.push(name));
        assert(items.last() == v);
        assert(before.push(name).drop_last() =~= before);
        assert(before.push(name).last() == name);
        assert(!is_known(c, vs[vs.len() - 1]));
        if init.len() == 0 {
            assert(before =~= Seq::<Seq<char>>::empty());
            assert(run_spec(c, before) == Ok::<ParseState, Seq<char>>((defaults(specs_of(c)), None)));
        }
        let m0 = run_spec(c, before)->Ok_0.0;
        assert(run_spec(c, before) == Ok::<ParseState, Seq<char>>((m0, None)));
        assert(init.len() > 0 ==> mget(m0, name) == Some(ArgVal::List(init)));
        assert(init.len() == 0 ==> mget(m0, name) is None);
        assert(run_spec(c, before.push(name)) == step_spec(c, (m0, None), name));
        assert(step_spec(c, (m0, None), name) == Ok::<ParseState, Seq<char>>((m0, Some(s))));
        assert(run_spec(c, items) == step_spec(c, (m0, Some(s)), v));
        assert(convert_spec(s, v) == Some(ArgVal::Str(v)));
        let m1 = insert_value_spec(m0, s, ArgVal::Str(v));
        assert(step_spec(c, (m0, Some(s)), v) == Ok::<ParseState, Seq<char>>((m1, None)));
        if init.len() == 0 {
            assert(seq![v] =~= vs);
            assert(m1 == m0.insert(name, ArgVal::List(seq![v])));
        } else {
            assert(init + seq![v] =~= vs);
            assert(m1 == m0.insert(name, ArgVal::List(init + seq![v])));
        }
        assert(mget(m1, name) == Some(ArgVal::List(vs)));
    }
}

/// An option name as a key: without leading dashes, other dashes as underscores.
pub open spec fn norm_key(k: Seq<char>) -> Seq<char> {
    crate::text::replace_spec(
        crate::text::trim_start_spec(k, crate::text::CharClass::Single('-')),
        seq!['-'],
        seq!['_'],
    )
}

/// `k` is the greatest key of `m` whose normalised form is `nk`.
pub open spec fn greatest_with_norm(m: Map<Seq<char>, ArgVal>, nk: Seq<char>, k: Seq<char>) -> bool {
    &&& m.dom().contains(k)
    &&& norm_key(k) == nk
    &&& forall|k2: Seq<char>|
        m.dom().contains(k2) && norm_key(k2) == nk ==> k2 == k || crate::strmap::seq_lt(k2, k)
}

/// `m` with normalised keys; where two keys normalise alike, the one that sorts
/// last wins, as when a sorted map is walked in order.
pub open spec fn normalize_spec(m: Map<Seq<char>, ArgVal>) -> Map<Seq<char>, ArgVal> {
    Map::new(
        |nk: Seq<char>| exists|k: Seq<char>| m.dom().contains(k) && norm_key(k) == nk,
        |nk: Seq<char>| m[choose|k: Seq<char>| greatest_with_norm(m, nk, k)],
    )
}

/// What `ArgParser::parse` answers, as values.
pub ghost enum ParseAnswer {
    Parsed(Map<Seq<char>, ArgVal>),
    Help(Seq<char>),
    About,
    Failed(Seq<char>, Seq<char>),
}


// ---------------------------------------------------------------------------
// Help and completion texts
// ---------------------------------------------------------------------------

/// The widest option name of `specs`, in bytes.
pub open spec fn max_name_len(specs: Seq<OptionSpec>) -> int
    decreases specs.len(),
{
    if specs.len() == 0 {
        0
    } else {
        let prev = max_name_len(specs.drop_last());
        let l = specs.last().name.len() as int;
        if l > prev {
            l
        } else {
            prev
        }
    }
}

/// The widest command name of `cmds`, in bytes.
pub open spec fn max_command_len(cmds: Seq<CommandSpec>) -> int
    decreases cmds.len(),
{
    if cmds.len() == 0 {
        0
    } else {
        let prev = max_command_len(cmds.drop_last());
        let l = cmds.last().name.len() as int;
        if l > prev {
            l
        } else {
            prev
        }
    }
}

/// `{name:>width} : {marker}{help}\n`.
pub open spec fn help_line(name: Seq<char>, width: int, marker: Seq<char>, help: Seq<char>) -> Seq<char> {
    crate::text::pad_left_spec(name, width) + " : "@ + marker + help + seq!['\n']
}

/// The lines of a command's arguments; the first argument is marked `[default]`.
pub open spec fn argument_lines(c: CommandSpec, args: Seq<OptionSpec>, width: int) -> Seq<char>
    decreases args.len(),
{
    if args.len() == 0 {
        Seq::empty()
    } else {
        let a = args.last();
        let marker = if c.first_arg matches Some(f) && f@ == a.name@ {
            "[default] "@
        } else {
            Seq::empty()
        };
        argument_lines(c, args.drop_last(), width) + help_line(a.name@, width, marker, a.help@)
    }
}

pub open spec fn flag_lines(flags: Seq<OptionSpec>, width: int) -> Seq<char>
    decreases flags.len(),
{
    if flags.len() == 0 {
        Seq::empty()
    } else {
        flag_lines(flags.drop_last(), width) + help_line(
            flags.last().name@,
            width,
            Seq::empty(),
            flags.last().help@,
        )
    }
}

/// Where `x` goes in the sorted `s`: after every command whose name does not
/// sort after its own.
pub open spec fn insert_sorted(s: Seq<CommandSpec>, x: CommandSpec) -> Seq<CommandSpec>
    decreases s.len(),
{
    if s.len() == 0 {
        seq![x]
    } else if crate::strmap::seq_lt(x.name@, s.last().name@) {
        insert_sorted(s.drop_last(), x).push(s.last())
    } else {
        s.push(x)
    }
}

/// The commands sorted by name, keeping the order of equal names (a stable sort).
pub open spec fn sort_commands(s: Seq<CommandSpec>) -> Seq<CommandSpec>
    decreases s.len(),
{
    if s.len() == 0 {
        Seq::empty()
    } else {
        insert_sorted(sort_commands(s.drop_last()), s.last())
    }
}

pub open spec fn command_lines(cmds: Seq<CommandSpec>, width: int) -> Seq<char>
    decreases cmds.len(),
{
    if cmds.len() == 0 {
        Seq::empty()
    } else {
        command_lines(cmds.drop_last(), width) + help_line(
            cmds.last().name@,
            width,
            Seq::empty(),
            cmds.last().help@,
        )
    }
}

/// The help text: for one command its options, otherwise all commands by name.
pub open spec fn help_spec(cmds: Seq<CommandSpec>, command: Option<CommandSpec>) -> Seq<char> {
    match command {
        Some(c) => {
            let width = max_name_len(specs_of(c));
            "Options for: "@ + c.name@ + "\nAvailable arguments:\n"@ + argument_lines(
                c,
                c.arguments@,
                width,
            ) + if c.flags@.len() == 0 {
                Seq::empty()
            } else {
                "Available flags:\n"@ + flag_lines(c.flags@, width)
            }
        },
        None => "Available commands:\n"@ + command_lines(
            sort_commands(cmds),
            max_command_len(cmds),
        ),
    }
}

pub open spec fn option_names(s: Seq<OptionSpec>) -> Seq<Seq<char>> {
    s.map_values(|o: OptionSpec| o.name@)
}

pub open spec fn command_names(s: Seq<CommandSpec>) -> Seq<Seq<char>> {
    s.map_values(|c: CommandSpec| c.name@)
}

/// The commands whose names start with `p`, in their order.
pub open spec fn commands_starting(cmds: Seq<CommandSpec>, p: Seq<char>) -> Seq<CommandSpec>
    decreases cmds.len(),
{
    if cmds.len() == 0 {
        Seq::empty()
    } else {
        let prev = commands_starting(cmds.drop_last(), p);
        if crate::text::starts_with_spec(cmds.last().name@, p) {
            prev.push(cmds.last())
        } else {
            prev
        }
    }
}

/// The names that complete `args`: all commands, the options of a command,
/// or the commands whose names start with the word typed so far.
pub open spec fn autocomplete_spec(cmds: Seq<CommandSpec>, args: Seq<Seq<char>>) -> Seq<char> {
    if args.len() == 0 {
        crate::text::join_spec(command_names(cmds), seq![' '])
    } else {
        match command_named(cmds, args[0]) {
            Some(c) => crate::text::join_spec(option_names(specs_of(c)), seq![' ']),
            None => crate::text::join_spec(
                command_names(commands_starting(cmds, args[0])),
                seq![' '],
            ),
        }
    }
}

/// What `parse` answers for the command line `argv`.
pub open spec fn parse_spec(cmds: Seq<CommandSpec>, argv: Seq<Seq<char>>) -> ParseAnswer {
    if argv.len() == 0 {
        ParseAnswer::About
    } else if argv[0] == "autocomplete"@ {
        ParseAnswer::Help(autocomplete_spec(cmds, argv.skip(1)))
    } else if argv[0] == "--help"@ {
        ParseAnswer::Help(help_spec(cmds, None))
    } else {
        match command_named(cmds, argv[0]) {
            None => ParseAnswer::Failed(msg_unexpected_command(argv[0]), help_spec(cmds, None)),
            Some(c) => if argv.skip(1).contains("--help"@) {
                ParseAnswer::Help(help_spec(cmds, Some(c)))
            } else {
                match values_spec(c, prepared_input(c, argv.skip(1))) {
                    Err(e) => ParseAnswer::Failed(e, help_spec(cmds, Some(c))),
                    Ok(m) => ParseAnswer::Parsed(normalize_spec(m)),
                }
            },
        }
    }
}

/// How the parser answered.
#[derive(Clone, Debug, PartialEq, Eq)]
pub enum ParseOutcome {
    Parsed(ParsedArgs),
    Help(String),
    About,
}

/// A refused command line: what is wrong, and the help to show.
#[derive(Clone, Debug, PartialEq, Eq)]
pub struct ParseError {
    pub message: String,
    pub help: String,
}

/// `res` is the answer `a`.
pub open spec fn answers(res: Result<ParseOutcome, ParseError>, a: ParseAnswer) -> bool {
    match res {
        Ok(ParseOutcome::Parsed(p)) => a matches ParseAnswer::Parsed(m) && p.wf() && forall|
            k: Seq<char>,
        | #[trigger] opt_view(p.lookup(k)) == mget(m, k),
        Ok(ParseOutcome::Help(h)) => a == ParseAnswer::Help(h@),
        Ok(ParseOutcome::About) => a == ParseAnswer::About,
        Err(e) => a == ParseAnswer::Failed(e.message@, e.help@),
    }
}

/// A command-line parser over a table of commands.
#[derive(Clone, Debug)]
pub struct ArgParser {
    commands: Vec<CommandSpec>,
}

/// Whether two string slices are equal.
pub fn str_eq(a: &str, b: &str) -> (r: bool)
    ensures
        r == (a@ == b@),
{
    chars_eq(chars_of(a).as_slice(), chars_of(b).as_slice())
}

/// The number of bytes of `s`, as `str::len` counts them.
fn byte_len(s: &str) -> (n: usize)
    ensures
        n == s.len(),
{
    s.len()
}

fn help_line_exec(out: &mut Vec<char>, name: &str, width: usize, marker: &str, help: &str)
    ensures
        final(out)@ == old(out)@ + help_line(name@, width as int, marker@, help@),
{
    let n = chars_of(name);
    let padded = pad_left(n.as_slice(), width);
    push_all(out, padded.as_slice());
    push_str(out, " : ");
    push_str(out, marker);
    push_str(out, help);
    out.push('\n');
    assert(final(out)@ =~= old(out)@ + help_line(name@, width as int, marker@, help@));
}

impl ArgParser {
    pub closed spec fn commands_spec(&self) -> Seq<CommandSpec> {
        self.commands@
    }

    /// A parser over the given commands.
    pub fn new(commands: Vec<CommandSpec>) -> (res: Self)
        ensures
            res.commands_spec() == commands@,
    {
        ArgParser { commands }
    }

    /// The help text: for `command` its options, otherwise all commands sorted by name.
    pub fn help(&self, command: Option<&CommandSpec>) -> (res: String)
        ensures
            res@ == help_spec(
                self.commands_spec(),
                match command {
                    Some(c) => Some(*c),
                    None => None,
                },
            ),
    {
        let mut out: Vec<char> = Vec::new();
        match command {
            Some(c) => {
                let width = Self::name_width(c);
                push_str(&mut out, "Options for: ");
                push_str(&mut out, c.name);
                push_str(&mut out, "\nAvailable arguments:\n");
                let ghost head = out@;
                let mut i: usize = 0;
                while i < c.arguments.len()
                    invariant
                        i <= c.arguments@.len(),
                        out@ == head + argument_lines(*c, c.arguments@.take(i as int), width as int),
                    decreases c.arguments.len() - i,
                {
                    let a = &c.arguments[i];
                    let is_first = match c.first_arg {
                        Some(f) => str_eq(f, a.name),
                        None => false,
                    };
                    assert(c.arguments@.take(i + 1).drop_last() =~= c.arguments@.take(i as int));
                    assert(c.arguments@.take(i + 1).last() == *a);
                    help_line_exec(&mut out, a.name, width, if is_first { "[default] " } else { "" }, a.help);
                    proof {
                        reveal_strlit("");
                    }
                    i += 1;
                }
                assert(c.arguments@.take(c.arguments@.len() as int) =~= c.arguments@);
                if c.flags.len() > 0 {
                    push_str(&mut out, "Available flags:\n");
                    let ghost head2 = out@;
                    let mut j: usize = 0;
                    while j < c.flags.len()
                        invariant
                            j <= c.flags@.len(),
                            out@ == head2 + flag_lines(c.flags@.take(j as int), width as int),
                        decreases c.flags.len() - j,
                    {
                        let f = &c.flags[j];
                        assert(c.flags@.take(j + 1).drop_last() =~= c.flags@.take(j as int));
                        assert(c.flags@.take(j + 1).last() == *f);
                        help_line_exec(&mut out, f.name, width, "", f.help);
                        proof {
                            reveal_strlit("");
                        }
                        j += 1;
                    }
                    assert(c.flags@.take(c.flags@.len() as int) =~= c.flags@);
                }
                assert(out@ =~= help_spec(self.commands_spec(), Some(*c)));
            },
            None => {
                let mut width: usize = 0;
                let mut k: usize = 0;
                while k < self.commands.len()
                    invariant
                        k <= self.commands@.len(),
                        width as int == max_command_len(self.commands@.take(k as int)),
                    decreases self.commands.len() - k,
                {
                    assert(self.commands@.take(k + 1).drop_last() =~= self.commands@.take(k as int));
                    let l = byte_len(self.commands[k].name);
                    if l > width {
                        width = l;
                    }
                    k += 1;
                }
                assert(self.commands@.take(self.commands@.len() as int) =~= self.commands@);
                let order = self.sorted_order();
                push_str(&mut out, "Available commands:\n");
                let ghost head = out@;
                let ghost sorted = sort_commands(self.commands@);
                let mut i: usize = 0;
                while i < order.len()
                    invariant
                        i <= order@.len(),
                        order@.len() == sorted.len(),
                        forall|j: int| 0 <= j < order@.len() ==> #[trigger] order@[j] < self.commands@.len()
                            && self.commands@[order@[j] as int] == sorted[j],
                        out@ == head + command_lines(sorted.take(i as int), width as int),
                    decreases order.len() - i,
                {
                    let c = &self.commands[order[i]];
                    assert(sorted.take(i + 1).drop_last() =~= sorted.take(i as int));
                    assert(sorted.take(i + 1).last() == *c);
                    help_line_exec(&mut out, c.name, width, "", c.help);
                    proof {
                        reveal_strlit("");
                    }
                    i += 1;
                }
                assert(sorted.take(order@.len() as int) =~= sorted);
            },
        }
        string_of(out.as_slice())
    }

    /// The widest option name of `c`, in bytes.
    fn name_width(c: &CommandSpec) -> (width: usize)
        ensures
            width as int == max_name_len(specs_of(*c)),
    {
        let mut width: usize = 0;
        let mut i: usize = 0;
        while i < c.arguments.len()
            invariant
                i <= c.arguments@.len(),
                width as int == max_name_len(c.arguments@.take(i as int)),
            decreases c.arguments.len() - i,
        {
            assert(c.arguments@.take(i + 1).drop_last() =~= c.arguments@.take(i as int));
            let l = byte_len(c.arguments[i].name);
            if l > width {
                width = l;
            }
            i += 1;
        }
        assert(c.arguments@.take(c.arguments@.len() as int) =~= c.arguments@);
        let mut j: usize = 0;
        assert(c.arguments@ + c.flags@.take(0) =~= c.arguments@);
        while j < c.flags.len()
            invariant
                j <= c.flags@.len(),
                width as int == max_name_len(c.arguments@ + c.flags@.take(j as int)),
            decreases c.flags.len() - j,
        {
            assert((c.arguments@ + c.flags@.take(j + 1)).drop_last() =~= c.arguments@ + c.flags@.take(j as int));
            assert((c.arguments@ + c.flags@.take(j + 1)).last() == c.flags@[j as int]);
            let l = byte_len(c.flags[j].name);
            if l > width {
                width = l;
            }
            j += 1;
        }
        assert(c.arguments@ + c.flags@.take(c.flags@.len() as int) =~= specs_of(*c));
        width
    }

    /// The positions of the commands in name order (a stable sort).
    fn sorted_order(&self) -> (order: Vec<usize>)
        ensures
            order@.len() == sort_commands(self.commands@).len(),
            forall|j: int| 0 <= j < order@.len() ==> #[trigger] order@[j] < self.commands@.len()
                && self.commands@[order@[j] as int] == sort_commands(self.commands@)[j],
    {
        let mut order: Vec<usize> = Vec::new();
        let mut k: usize = 0;
        while k < self.commands.len()
            invariant
                k <= self.commands@.len(),
                order@.len() == sort_commands(self.commands@.take(k as int)).len(),
                forall|j: int| 0 <= j < order@.len() ==> #[trigger] order@[j] < self.commands@.len()
                    && self.commands@[order@[j] as int] == sort_commands(
                    self.commands@.take(k as int),
                )[j],
            decreases self.commands.len() - k,
        {
            let ghost cmds = self.commands@;
            let ghost prev = sort_commands(cmds.take(k as int));
            assert(cmds.take(k + 1).drop_last() =~= cmds.take(k as int));
            assert(cmds.take(k + 1).last() == cmds[k as int]);
            let x = &self.commands[k];
            // position: after the last element whose name does not sort after x
            let mut p: usize = order.len();
            assert(prev.take(p as int) =~= prev);
            assert(prev.skip(p as int) =~= Seq::<CommandSpec>::empty());
            while p > 0 && crate::strmap::str_lt(x.name, self.commands[order[p - 1]].name)
                invariant
                    p <= order@.len(),
                    order@.len() == prev.len(),
                    forall|j: int| 0 <= j < order@.len() ==> #[trigger] order@[j] < cmds.len()
                        && cmds[order@[j] as int] == prev[j],
                    insert_sorted(prev, cmds[k as int]) == insert_sorted(prev.take(p as int), cmds[k as int])
                        + prev.skip(p as int),
                    self.commands@ == cmds,
                    k < cmds.len(),
                    *x == cmds[k as int],
                decreases p,
            {
                proof {
                    assert(cmds[order@[p - 1] as int] == prev[p - 1]);
                    let t = prev.take(p as int);
                    assert(t.last() == prev[p - 1]);
                    assert(t.drop_last() =~= prev.take(p - 1));
                    assert(prev.skip(p - 1) =~= seq![prev[p - 1]] + prev.skip(p as int));
                    assert(insert_sorted(t, cmds[k as int]) == insert_sorted(prev.take(p - 1), cmds[k as int]).push(prev[p - 1]));
                    assert(insert_sorted(prev.take(p - 1), cmds[k as int]).push(prev[p - 1]) + prev.skip(p as int)
                        =~= insert_sorted(prev.take(p - 1), cmds[k as int]) + prev.skip(p - 1));
                }
                p -= 1;
            }
            proof {
                let t = prev.take(p as int);
                if p > 0 {
                    assert(t.last() == prev[p - 1]);
                }
                assert(insert_sorted(t, cmds[k as int]) == t.push(cmds[k as int]));
            }
            let ghost old_order = order@;
            order.insert(p, k);
            proof {
                let news = sort_commands(cmds.take(k + 1));
                assert(news == insert_sorted(prev, cmds[k as int]));
                assert(news =~= prev.take(p as int).push(cmds[k as int]) + prev.skip(p as int));
                assert forall|j: int| 0 <= j < order@.len() implies #[trigger] order@[j] < cmds.len()
                    && cmds[order@[j] as int] == news[j] by {
                    if j < p {
                        assert(order@[j] == old_order[j]);
                        assert(news[j] == prev[j]);
                    } else if j == p {
                        assert(order@[j] == k);
                    } else {
                        assert(order@[j] == old_order[j - 1]);
                        assert(news[j] == prev[j - 1]);
                    }
                }
            }
            k += 1;
        }
        assert(self.commands@.take(self.commands@.len() as int) =~= self.commands@);
        order
    }
}


// ---------------------------------------------------------------------------
// Parsing, step by step
// ---------------------------------------------------------------------------

pub open spec fn active_spec(c: CommandSpec, active: Option<usize>) -> Option<OptionSpec> {
    match active {
        Some(i) => Some(c.arguments@[i as int]),
        None => None,
    }
}

/// The state after an error stays that error.
pub proof fn lemma_run_err_prefix(c: CommandSpec, items: Seq<Seq<char>>, i: int, e: Seq<char>)
    requires
        0 <= i <= items.len(),
        run_spec(c, items.take(i)) == Err::<ParseState, Seq<char>>(e),
    ensures
        run_spec(c, items) == Err::<ParseState, Seq<char>>(e),
    decreases items.len() - i,
{
    if i < items.len() {
        let t = items.take(i + 1);
        assert(t.drop_last() =~= items.take(i));
        lemma_run_err_prefix(c, items, i + 1, e);
    } else {
        assert(items.take(i) =~= items);
    }
}

pub open spec fn last_with_norm(ks: Seq<Seq<char>>, nk: Seq<char>, i: int) -> Option<int>
    decreases i,
{
    if i <= 0 {
        None
    } else if norm_key(ks[i - 1]) == nk {
        Some(i - 1)
    } else {
        last_with_norm(ks, nk, i - 1)
    }
}

pub proof fn lemma_last_with_norm(ks: Seq<Seq<char>>, nk: Seq<char>, i: int)
    requires
        i >= 0,
    ensures
        match last_with_norm(ks, nk, i) {
            Some(j) => 0 <= j < i && norm_key(ks[j]) == nk && forall|j2: int|
                j < j2 < i ==> norm_key(#[trigger] ks[j2]) != nk,
            None => forall|j: int| 0 <= j < i ==> norm_key(#[trigger] ks[j]) != nk,
        },
    decreases i,
{
    if i > 0 && norm_key(ks[i - 1]) != nk {
        lemma_last_with_norm(ks, nk, i - 1);
    }
}

impl ArgValue {
    /// A copy of the value.
    pub fn duplicate(&self) -> (res: ArgValue)
        ensures
            res@ == self@,
    {
        match self {
            ArgValue::Bool(b) => ArgValue::Bool(*b),
            ArgValue::Int(i) => ArgValue::Int(*i),
            ArgValue::String(s) => ArgValue::String(s.clone()),
            ArgValue::List(v) => {
                let mut out: Vec<String> = Vec::new();
                let mut i: usize = 0;
                while i < v.len()
                    invariant
                        i <= v@.len(),
                        out@ == v@.take(i as int),
                    decreases v.len() - i,
                {
                    out.push(v[i].clone());
                    assert(out@ =~= v@.take(i + 1));
                    i += 1;
                }
                assert(v@.take(v@.len() as int) =~= v@);
                assert(out@ =~= v@);
                ArgValue::List(out)
            },
            ArgValue::Empty => ArgValue::Empty,
        }
    }
}

/// The position of the first option of `s` named `n`.
fn named_index(s: &Vec<OptionSpec>, n: &[char]) -> (r: Option<usize>)
    ensures
        match r {
            Some(i) => i < s@.len() && named(s@, n@) == Some(s@[i as int]),
            None => named(s@, n@) is None,
        },
{
    let mut i: usize = 0;
    assert(s@.skip(0) =~= s@);
    while i < s.len()
        invariant
            i <= s@.len(),
            named(s@, n@) == named(s@.skip(i as int), n@),
        decreases s.len() - i,
    {
        assert(s@.skip(i as int)[0] == s@[i as int]);
        if chars_eq(chars_of(s[i].name).as_slice(), n) {
            return Some(i);
        }
        assert(s@.skip(i as int).skip(1) =~= s@.skip(i + 1));
        i += 1;
    }
    None
}

fn is_known_exec(c: &CommandSpec, n: &[char]) -> (b: bool)
    ensures
        b == is_known(*c, n@),
{
    named_index(&c.arguments, n).is_some() || named_index(&c.flags, n).is_some()
}

fn flag_value_exec(f: &OptionSpec) -> (v: ArgValue)
    ensures
        v@ == flag_value_spec(*f),
{
    match &f.flag_value {
        Some(v) => v.duplicate(),
        None => ArgValue::Bool(true),
    }
}

fn convert_value(s: &OptionSpec, item: &[char]) -> (r: Option<ArgValue>)
    ensures
        opt_view(r) == convert_spec(*s, item@),
{
    match s.value_kind {
        ValueKind::String => Some(ArgValue::String(string_of(item))),
        ValueKind::Int => match crate::text::parse_i64(item) {
            Some(i) => Some(ArgValue::Int(i)),
            None => None,
        },
    }
}

/// Stores `value` for option `spec` in `data`, which holds `m`.
fn insert_value(data: &mut ParsedArgs, spec: &OptionSpec, value: ArgValue, Ghost(m): Ghost<Map<Seq<char>, ArgVal>>)
    requires
        old(data).wf(),
        forall|k: Seq<char>| #[trigger] opt_view(old(data).lookup(k)) == mget(m, k),
    ensures
        final(data).wf(),
        forall|k: Seq<char>| #[trigger] opt_view(final(data).lookup(k)) == mget(
            insert_value_spec(m, *spec, value@),
            k,
        ),
{
    let ghost n = spec.name@;
    let ghost target = insert_value_spec(m, *spec, value@);
    let name = spec.name.to_string();
    if spec.repetitive {
        let ghost before = *data;
        let removed = data.remove(spec.name);
        assert(opt_view(removed) == mget(m, n)) by {
            assert(opt_view(before.lookup(n)) == mget(m, n));
        }
        let new_value = match removed {
            Some(ArgValue::List(values)) => {
                let mut values = values;
                match value {
                    ArgValue::String(v) => {
                        values.push(v);
                    },
                    _ => {},
                }
                ArgValue::List(values)
            },
            Some(ArgValue::String(previous)) => {
                let mut values = vec![previous];
                match value {
                    ArgValue::String(v) => {
                        values.push(v);
                    },
                    _ => {},
                }
                ArgValue::List(values)
            },
            _ => {
                let values = match value {
                    ArgValue::String(v) => vec![v],
                    _ => Vec::new(),
                };
                ArgValue::List(values)
            },
        };
        assert(new_value@ == target[n]) by {
            match new_value {
                ArgValue::List(vs) => {
                    assert(string_views(vs@) =~= target[n]->List_0);
                },
                _ => {},
            }
        }
        let ghost mid = *data;
        data.insert(name, new_value);
        assert forall|k: Seq<char>| #[trigger] opt_view(data.lookup(k)) == mget(target, k) by {
            if k != n {
                assert(opt_view(mid.lookup(k)) == opt_view(before.lookup(k)));
            }
        }
    } else {
        let ghost before = *data;
        data.insert(name, value);
        assert forall|k: Seq<char>| #[trigger] opt_view(data.lookup(k)) == mget(target, k) by {
            if k != n {
                assert(opt_view(before.lookup(k)) == mget(m, k));
            }
        }
    }
}

fn msg_value(item: &[char], name: &str) -> (r: Vec<char>)
    ensures
        r@ == msg_unexpected_value(item@, name@),
{
    let mut out = chars_of("Unexpected value ");
    out.push('"');
    push_all(&mut out, item);
    out.push('"');
    push_str(&mut out, " for argument ");
    out.push('"');
    push_str(&mut out, name);
    out.push('"');
    assert(out@ =~= msg_unexpected_value(item@, name@));
    out
}

fn msg_argument(item: &[char], command: &str) -> (r: Vec<char>)
    ensures
        r@ == msg_unexpected_argument(item@, command@),
{
    let mut out = chars_of("Unexpected argument ");
    out.push('"');
    push_all(&mut out, item);
    out.push('"');
    push_str(&mut out, " for command ");
    out.push('"');
    push_str(&mut out, command);
    out.push('"');
    assert(out@ =~= msg_unexpected_argument(item@, command@));
    out
}

fn msg_required(name: &str, command: &str) -> (r: Vec<char>)
    ensures
        r@ == msg_missing(name@, command@),
{
    let mut out = chars_of("Not found required argument ");
    out.push('"');
    push_str(&mut out, name);
    out.push('"');
    push_str(&mut out, " for command ");
    out.push('"');
    push_str(&mut out, command);
    out.push('"');
    assert(out@ =~= msg_missing(name@, command@));
    out
}

/// `items` with every `from` replaced by `to`.
fn rename(items: Vec<Vec<char>>, from: &str, to: &str) -> (res: Vec<Vec<char>>)
    ensures
        crate::text::views(res@) == rename_items(crate::text::views(items@), from@, to@),
{
    let f = chars_of(from);
    let ghost target = rename_items(crate::text::views(items@), from@, to@);
    let mut out: Vec<Vec<char>> = Vec::new();
    let mut i: usize = 0;
    while i < items.len()
        invariant
            i <= items@.len(),
            f@ == from@,
            target == rename_items(crate::text::views(items@), from@, to@),
            crate::text::views(out@) == target.take(i as int),
        decreases items.len() - i,
    {
        let cur = items[i].as_slice();
        let x = if chars_eq(cur, f.as_slice()) {
            chars_of(to)
        } else {
            crate::text::slice_to_vec(cur, 0, cur.len())
        };
        assert(cur@.subrange(0, cur@.len() as int) =~= cur@);
        assert(x@ == target[i as int]);
        let ghost before = out@;
        out.push(x);
        assert(crate::text::views(out@) =~= crate::text::views(before).push(x@));
        assert(crate::text::views(out@) =~= target.take(i + 1));
        i += 1;
    }
    assert(target.take(items@.len() as int) =~= target);
    out
}

/// The input with the short name of `sp` replaced by its name.
fn apply_alt(items: Vec<Vec<char>>, sp: &OptionSpec) -> (res: Vec<Vec<char>>)
    ensures
        crate::text::views(res@) == match sp.alt_name {
            Some(a) => rename_items(crate::text::views(items@), a@, sp.name@),
            None => crate::text::views(items@),
        },
{
    match sp.alt_name {
        Some(a) => rename(items, a, sp.name),
        None => items,
    }
}

/// The input with short names expanded and the first argument's name put in place.
fn prepare_input(c: &CommandSpec, rest: Vec<Vec<char>>) -> (input: Vec<Vec<char>>)
    ensures
        crate::text::views(input@) == prepared_input(*c, crate::text::views(rest@)),
{
    let ghost r0 = crate::text::views(rest@);
    let mut items = rest;
    let mut i: usize = 0;
    assert(c.arguments@.take(0) =~= Seq::<OptionSpec>::empty());
    while i < c.arguments.len()
        invariant
            i <= c.arguments@.len(),
            crate::text::views(items@) == apply_alts(r0, c.arguments@.take(i as int)),
        decreases c.arguments.len() - i,
    {
        assert(c.arguments@.take(i + 1).drop_last() =~= c.arguments@.take(i as int));
        assert(c.arguments@.take(i + 1).last() == c.arguments@[i as int]);
        items = apply_alt(items, &c.arguments[i]);
        i += 1;
    }
    assert(c.arguments@.take(i as int) =~= c.arguments@);
    assert(c.arguments@ + c.flags@.take(0) =~= c.arguments@);
    let mut j: usize = 0;
    while j < c.flags.len()
        invariant
            j <= c.flags@.len(),
            crate::text::views(items@) == apply_alts(r0, c.arguments@ + c.flags@.take(j as int)),
        decreases c.flags.len() - j,
    {
        assert((c.arguments@ + c.flags@.take(j + 1)).drop_last() =~= c.arguments@ + c.flags@.take(j as int));
        assert((c.arguments@ + c.flags@.take(j + 1)).last() == c.flags@[j as int]);
        items = apply_alt(items, &c.flags[j]);
        j += 1;
    }
    assert(c.arguments@ + c.flags@.take(j as int) =~= specs_of(*c));
    match c.first_arg {
        Some(f) => {
            if items.len() == 0 {
                items.push(chars_of(f));
                assert(crate::text::views(items@) =~= seq![f@]);
            } else if !is_known_exec(c, items[0].as_slice()) {
                let ghost before = crate::text::views(items@);
                items.insert(0, chars_of(f));
                assert(crate::text::views(items@) =~= seq![f@] + before);
            }
        },
        None => {},
    }
    items
}

/// Stores the default of `sp`, if it has one, in `data`, which holds `m`.
fn add_default(data: &mut ParsedArgs, sp: &OptionSpec, Ghost(m): Ghost<Map<Seq<char>, ArgVal>>)
    requires
        old(data).wf(),
        forall|k: Seq<char>| #[trigger] opt_view(old(data).lookup(k)) == mget(m, k),
    ensures
        final(data).wf(),
        forall|k: Seq<char>| #[trigger] opt_view(final(data).lookup(k)) == mget(
            match sp.default {
                Some(d) => m.insert(sp.name@, d@),
                None => m,
            },
            k,
        ),
{
    match &sp.default {
        Some(d) => {
            let ghost before = *data;
            data.insert(sp.name.to_string(), d.duplicate());
            assert forall|key: Seq<char>| #[trigger] opt_view(data.lookup(key)) == mget(
                m.insert(sp.name@, d@),
                key,
            ) by {
                if key != sp.name@ {
                    assert(opt_view(before.lookup(key)) == mget(m, key));
                }
            }
        },
        None => {},
    }
}

/// The defaults of the command's options.
fn defaults_exec(c: &CommandSpec) -> (data: ParsedArgs)
    ensures
        data.wf(),
        forall|k: Seq<char>| #[trigger] opt_view(data.lookup(k)) == mget(defaults(specs_of(*c)), k),
{
    let mut data: ParsedArgs = StrMap::new();
    let mut i: usize = 0;
    assert(c.arguments@.take(0) =~= Seq::<OptionSpec>::empty());
    while i < c.arguments.len()
        invariant
            i <= c.arguments@.len(),
            data.wf(),
            forall|key: Seq<char>| #[trigger] opt_view(data.lookup(key)) == mget(
                defaults(c.arguments@.take(i as int)),
                key,
            ),
        decreases c.arguments.len() - i,
    {
        assert(c.arguments@.take(i + 1).drop_last() =~= c.arguments@.take(i as int));
        assert(c.arguments@.take(i + 1).last() == c.arguments@[i as int]);
        add_default(&mut data, &c.arguments[i], Ghost(defaults(c.arguments@.take(i as int))));
        i += 1;
    }
    assert(c.arguments@.take(i as int) =~= c.arguments@);
    assert(c.arguments@ + c.flags@.take(0) =~= c.arguments@);
    let mut j: usize = 0;
    while j < c.flags.len()
        invariant
            j <= c.flags@.len(),
            data.wf(),
            forall|key: Seq<char>| #[trigger] opt_view(data.lookup(key)) == mget(
                defaults(c.arguments@ + c.flags@.take(j as int)),
                key,
            ),
        decreases c.flags.len() - j,
    {
        assert((c.arguments@ + c.flags@.take(j + 1)).drop_last() =~= c.arguments@ + c.flags@.take(j as int));
        assert((c.arguments@ + c.flags@.take(j + 1)).last() == c.flags@[j as int]);
        add_default(&mut data, &c.flags[j], Ghost(defaults(c.arguments@ + c.flags@.take(j as int))));
        j += 1;
    }
    assert(c.arguments@ + c.flags@.take(j as int) =~= specs_of(*c));
    data
}

/// Whether `name` is one of the items of `input`.
fn names_item(input: &Vec<Vec<char>>, name: &str) -> (b: bool)
    ensures
        b == crate::text::views(input@).contains(name@),
{
    let ghost items = crate::text::views(input@);
    let n = chars_of(name);
    let mut j: usize = 0;
    while j < input.len()
        invariant
            j <= input@.len(),
            items == crate::text::views(input@),
            n@ == name@,
            forall|t: int| 0 <= t < j ==> items[t] != name@,
        decreases input.len() - j,
    {
        if chars_eq(input[j].as_slice(), n.as_slice()) {
            assert(items[j as int] == name@);
            return true;
        }
        j += 1;
    }
    false
}

/// The first required option of the command that `input` does not name.
fn first_missing_exec<'a>(c: &'a CommandSpec, input: &Vec<Vec<char>>) -> (r: Option<&'a OptionSpec>)
    ensures
        match r {
            Some(sp) => first_missing(specs_of(*c), crate::text::views(input@)) == Some(*sp),
            None => first_missing(specs_of(*c), crate::text::views(input@)) is None,
        },
{
    let ghost items = crate::text::views(input@);
    let ghost specs = specs_of(*c);
    let mut i: usize = 0;
    assert(specs.skip(0) =~= specs);
    while i < c.arguments.len()
        invariant
            i <= c.arguments@.len(),
            specs == specs_of(*c),
            items == crate::text::views(input@),
            first_missing(specs, items) == first_missing(specs.skip(i as int), items),
        decreases c.arguments.len() - i,
    {
        let sp = &c.arguments[i];
        assert(specs.skip(i as int)[0] == *sp);
        assert(specs.skip(i as int).skip(1) =~= specs.skip(i + 1));
        if sp.required && !names_item(input, sp.name) {
            return Some(sp);
        }
        i += 1;
    }
    let mut j: usize = 0;
    while j < c.flags.len()
        invariant
            i == c.arguments@.len(),
            j <= c.flags@.len(),
            specs == specs_of(*c),
            items == crate::text::views(input@),
            first_missing(specs, items) == first_missing(specs.skip(i + j), items),
        decreases c.flags.len() - j,
    {
        let sp = &c.flags[j];
        assert(specs.skip(i + j)[0] == *sp);
        assert(specs.skip(i + j).skip(1) =~= specs.skip(i + j + 1));
        if sp.required && !names_item(input, sp.name) {
            return Some(sp);
        }
        j += 1;
    }
    assert(specs.skip(i + j) =~= Seq::<OptionSpec>::empty());
    None
}

/// The values of the options that `input` gives, or the error message.
fn values_exec(c: &CommandSpec, input: &Vec<Vec<char>>) -> (res: Result<ParsedArgs, Vec<char>>)
    ensures
        match res {
            Ok(d) => values_spec(*c, crate::text::views(input@)) matches Ok(m) && d.wf() && forall|
                k: Seq<char>,
            | #[trigger] opt_view(d.lookup(k)) == mget(m, k),
            Err(e) => values_spec(*c, crate::text::views(input@)) == Err::<Map<Seq<char>, ArgVal>, Seq<char>>(e@),
        },
{
    let ghost items = crate::text::views(input@);
    let mut data = defaults_exec(c);
    let ghost mut m = defaults(specs_of(*c));
    let mut active: Option<usize> = None;
    let mut index: usize = 0;
    assert(items.take(0) =~= Seq::<Seq<char>>::empty());
    while index < input.len()
        invariant
            index <= input@.len(),
            items == crate::text::views(input@),
            data.wf(),
            forall|k: Seq<char>| #[trigger] opt_view(data.lookup(k)) == mget(m, k),
            run_spec(*c, items.take(index as int)) == Ok::<ParseState, Seq<char>>((m, active_spec(*c, active))),
            active matches Some(i) ==> i < c.arguments@.len(),
        decreases input.len() - index,
    {
        let item = input[index].as_slice();
        assert(items.take(index + 1).drop_last() =~= items.take(index as int));
        assert(items.take(index + 1).last() == item@);
        match active {
            Some(ai) => {
                let a = &c.arguments[ai];
                if is_known_exec(c, item) {
                    match &a.empty_value {
                        Some(ev) => {
                            insert_value(&mut data, a, ev.duplicate(), Ghost(m));
                            proof {
                                m = insert_value_spec(m, *a, ev@);
                            }
                            let next = named_index(&c.arguments, item);
                            if next.is_none() {
                                match named_index(&c.flags, item) {
                                    Some(fi) => {
                                        let f = &c.flags[fi];
                                        let ghost before = data;
                                        data.insert(f.name.to_string(), flag_value_exec(f));
                                        proof {
                                            let m2 = m.insert(f.name@, flag_value_spec(*f));
                                            assert forall|k: Seq<char>| #[trigger] opt_view(data.lookup(k)) == mget(m2, k) by {
                                                if k != f.name@ {
                                                    assert(opt_view(before.lookup(k)) == mget(m, k));
                                                }
                                            }
                                            m = m2;
                                        }
                                    },
                                    None => {},
                                }
                            }
                            active = next;
                        },
                        None => {
                            let e = msg_value(item, a.name);
                            proof {
                                lemma_run_err_prefix(*c, items, index + 1, e@);
                            }
                            return Err(e);
                        },
                    }
                } else {
                    match convert_value(a, item) {
                        Some(v) => {
                            let ghost vv = v@;
                            insert_value(&mut data, a, v, Ghost(m));
                            proof {
                                m = insert_value_spec(m, *a, vv);
                            }
                            active = None;
                        },
                        None => {
                            let e = msg_value(item, a.name);
                            proof {
                                lemma_run_err_prefix(*c, items, index + 1, e@);
                            }
                            return Err(e);
                        },
                    }
                }
            },
            None => {
                match named_index(&c.arguments, item) {
                    Some(i) => {
                        active = Some(i);
                    },
                    None => {
                        match named_index(&c.flags, item) {
                            Some(fi) => {
                                let f = &c.flags[fi];
                                let ghost before = data;
                                data.insert(f.name.to_string(), flag_value_exec(f));
                                proof {
                                    let m2 = m.insert(f.name@, flag_value_spec(*f));
                                    assert forall|k: Seq<char>| #[trigger] opt_view(data.lookup(k)) == mget(m2, k) by {
                                        if k != f.name@ {
                                            assert(opt_view(before.lookup(k)) == mget(m, k));
                                        }
                                    }
                                    m = m2;
                                }
                            },
                            None => {
                                let e = msg_argument(item, c.name);
                                proof {
                                    lemma_run_err_prefix(*c, items, index + 1, e@);
                                }
                                return Err(e);
                            },
                        }
                    },
                }
            },
        }
        index += 1;
    }
    assert(items.take(index as int) =~= items);
    match active {
        Some(ai) => {
            let a = &c.arguments[ai];
            match &a.empty_value {
                Some(ev) => {
                    insert_value(&mut data, a, ev.duplicate(), Ghost(m));
                    proof {
                        m = insert_value_spec(m, *a, ev@);
                    }
                },
                None => {
                    let e = msg_value(&[], a.name);
                    assert(e@ =~= msg_unexpected_value(Seq::empty(), a.name@));
                    return Err(e);
                },
            }
        },
        None => {},
    }
    // every required option must be named somewhere in the input
    match first_missing_exec(c, input) {
        Some(sp) => {
            let e = msg_required(sp.name, c.name);
            Err(e)
        },
        None => Ok(data),
    }
}

/// The option name `k` as a key.
fn norm_key_exec(k: &str) -> (r: String)
    ensures
        r@ == norm_key(k@),
{
    let v = chars_of(k);
    let t = crate::text::trim_start_class(v.as_slice(), crate::text::CharClass::Single('-'));
    let dash = vec!['-'];
    let under = vec!['_'];
    assert(dash@ =~= seq!['-']);
    assert(under@ =~= seq!['_']);
    let r = crate::text::replace_all(t.as_slice(), dash.as_slice(), under.as_slice());
    string_of(r.as_slice())
}

/// `data`, which holds `m`, with normalised keys.
fn normalize_keys(data: &ParsedArgs, Ghost(m): Ghost<Map<Seq<char>, ArgVal>>) -> (res: ParsedArgs)
    requires
        data.wf(),
        forall|k: Seq<char>| #[trigger] opt_view(data.lookup(k)) == mget(m, k),
    ensures
        res.wf(),
        forall|k: Seq<char>| #[trigger] opt_view(res.lookup(k)) == mget(normalize_spec(m), k),
{
    let ghost ks = data.key_seq();
    let ghost es = data.entry_seq();
    let mut out: ParsedArgs = StrMap::new();
    let mut i: usize = 0;
    while i < data.len()
        invariant
            i <= es.len(),
            ks == data.key_seq(),
            es == data.entry_seq(),
            out.wf(),
            forall|nk: Seq<char>| #[trigger] opt_view(out.lookup(nk)) == match last_with_norm(ks, nk, i as int) {
                Some(j) => Some(es[j].1@),
                None => None,
            },
        decreases es.len() - i,
    {
        let key = norm_key_exec(data.key_at(i).as_str());
        let value = data.value_at(i).duplicate();
        let ghost before = out;
        assert(ks[i as int] == es[i as int].0@);
        out.insert(key, value);
        assert forall|nk: Seq<char>| #[trigger] opt_view(out.lookup(nk)) == match last_with_norm(ks, nk, i + 1) {
            Some(j) => Some(es[j].1@),
            None => None,
        } by {
            if nk != key@ {
                assert(opt_view(before.lookup(nk)) == match last_with_norm(ks, nk, i as int) {
                    Some(j) => Some(es[j].1@),
                    None => None,
                });
            }
        }
        i += 1;
    }
    proof {
        let n = es.len() as int;
        // keys of `data` are exactly the domain of `m`
        assert forall|j: int| 0 <= j < n implies m.dom().contains(#[trigger] ks[j]) && m[ks[j]] == es[j].1@ by {
            assert forall|t: int| 0 <= t < j implies es[t].0@ != ks[j] by {
                assert(ks[t] == es[t].0@);
                assert(crate::strmap::seq_lt(ks[t], ks[j]));
                crate::strmap::lemma_lt_irreflexive(ks[j]);
            }
            crate::strmap::lemma_lookup_at(es, j, ks[j]);
            assert(opt_view(data.lookup(ks[j])) == mget(m, ks[j]));
        }
        assert forall|k: Seq<char>| m.dom().contains(k) implies exists|j: int| 0 <= j < n && #[trigger] ks[j] == k by {
            assert(opt_view(data.lookup(k)) == mget(m, k));
            crate::strmap::lemma_lookup_found(es, k);
            let p = choose|p: int| 0 <= p < es.len() && es[p].0@ == k && es[p].1 == data.lookup(k)->0;
            assert(ks[p] == k);
        }
        assert forall|nk: Seq<char>| #[trigger] opt_view(out.lookup(nk)) == mget(normalize_spec(m), nk) by {
            lemma_last_with_norm(ks, nk, n);
            match last_with_norm(ks, nk, n) {
                Some(j) => {
                    let kj = ks[j];
                    assert(m.dom().contains(kj));
                    assert(greatest_with_norm(m, nk, kj)) by {
                        assert forall|k2: Seq<char>| m.dom().contains(k2) && norm_key(k2) == nk implies k2 == kj
                            || crate::strmap::seq_lt(k2, kj) by {
                            let j2 = choose|j2: int| 0 <= j2 < n && #[trigger] ks[j2] == k2;
                            if j2 > j {
                                assert(norm_key(ks[j2]) != nk);
                            } else if j2 < j {
                                assert(crate::strmap::seq_lt(ks[j2], ks[j]));
                            }
                        }
                    }
                    let kc = choose|k: Seq<char>| greatest_with_norm(m, nk, k);
                    assert(greatest_with_norm(m, nk, kc));
                    if kc != kj {
                        crate::strmap::lemma_lt_asymmetric(kc, kj);
                    }
                    assert(normalize_spec(m).dom().contains(nk));
                },
                None => {
                    assert(!normalize_spec(m).dom().contains(nk)) by {
                        if exists|k: Seq<char>| m.dom().contains(k) && norm_key(k) == nk {
                            let k = choose|k: Seq<char>| m.dom().contains(k) && norm_key(k) == nk;
                            let j = choose|j: int| 0 <= j < n && #[trigger] ks[j] == k;
                            assert(norm_key(ks[j]) != nk);
                        }
                    }
                },
            }
        }
    }
    out
}

/// The command names of the built-in table, in its order.
pub open spec fn default_command_names() -> Seq<Seq<char>> {
    seq![
        "user"@,
        "login"@,
        "logout"@,
        "settings"@,
        "create"@,
        "create-linked"@,
        "find"@,
        "edit"@,
        "edit-linked"@,
        "show"@,
        "remove"@,
        "dedup"@,
        "notebook-list"@,
        "notebook-create"@,
        "notebook-edit"@,
        "notebook-remove"@,
        "tag-list"@,
        "tag-create"@,
        "tag-edit"@,
        "tag-remove"@,
    ]
}

/// An option as the parser and the help read it: its names, its help text,
/// whether it is required or may repeat, the kind of its value, and the
/// values it takes when it is absent, given without a value, or given as a
/// flag.
#[verifier::ext_equal]
pub ghost struct OptionModel {
    pub name: Seq<char>,
    pub alt_name: Option<Seq<char>>,
    pub help: Seq<char>,
    pub required: bool,
    pub repetitive: bool,
    pub value_kind: ValueKind,
    pub default: Option<ArgVal>,
    pub empty_value: Option<ArgVal>,
    pub flag_value: Option<ArgVal>,
}

/// A command as the parser and the help read it: its name, its help text,
/// the option that takes a leading value, its arguments and its flags.
#[verifier::ext_equal]
pub ghost struct CommandModel {
    pub name: Seq<char>,
    pub help: Seq<char>,
    pub first_arg: Option<Seq<char>>,
    pub arguments: Seq<OptionModel>,
    pub flags: Seq<OptionModel>,
}

pub open spec fn option_model(o: OptionSpec) -> OptionModel {
    OptionModel {
        name: o.name@,
        alt_name: match o.alt_name {
            Some(a) => Some(a@),
            None => None,
        },
        help: o.help@,
        required: o.required,
        repetitive: o.repetitive,
        value_kind: o.value_kind,
        default: opt_view(o.default),
        empty_value: opt_view(o.empty_value),
        flag_value: opt_view(o.flag_value),
    }
}

pub open spec fn command_model(c: CommandSpec) -> CommandModel {
    CommandModel {
        name: c.name@,
        help: c.help@,
        first_arg: match c.first_arg {
            Some(a) => Some(a@),
            None => None,
        },
        arguments: c.arguments@.map_values(|o: OptionSpec| option_model(o)),
        flags: c.flags@.map_values(|o: OptionSpec| option_model(o)),
    }
}

/// An optional argument taking a string.
pub open spec fn arg_model(name: Seq<char>, alt_name: Option<Seq<char>>, help: Seq<char>) -> OptionModel {
    OptionModel {
        name,
        alt_name,
        help,
        required: false,
        repetitive: false,
        value_kind: ValueKind::String,
        default: None,
        empty_value: None,
        flag_value: None,
    }
}

/// A flag: `false` when absent, `true` when given.
pub open spec fn flag_model(name: Seq<char>, alt_name: Option<Seq<char>>, help: Seq<char>) -> OptionModel {
    OptionModel {
        default: Some(ArgVal::Bool(false)),
        flag_value: Some(ArgVal::Bool(true)),
        ..arg_model(name, alt_name, help)
    }
}

pub open spec fn required_model(o: OptionModel) -> OptionModel {
    OptionModel { required: true, ..o }
}

pub open spec fn repeated_model(o: OptionModel) -> OptionModel {
    OptionModel { repetitive: true, ..o }
}

pub open spec fn integer_model(o: OptionModel) -> OptionModel {
    OptionModel { value_kind: ValueKind::Int, ..o }
}

pub open spec fn empty_model(o: OptionModel, v: ArgVal) -> OptionModel {
    OptionModel { empty_value: Some(v), ..o }
}

pub open spec fn default_model(o: OptionModel, v: ArgVal) -> OptionModel {
    OptionModel { default: Some(v), ..o }
}

/// The `user` command.
pub open spec fn user_model() -> CommandModel {
    CommandModel {
        name: "user"@,
        help: "Show information about active user."@,
        first_arg: None,
        arguments: Seq::empty(),
        flags: seq![
            flag_model("--full"@, None, "Show full information."@),
        ],
    }
}

/// The `login` command.
pub open spec fn login_model() -> CommandModel {
    CommandModel {
        name: "login"@,
        help: "Authorize in Evernote."@,
        first_arg: None,
        arguments: Seq::empty(),
        flags: Seq::empty(),
    }
}

/// The `logout` command.
pub open spec fn logout_model() -> CommandModel {
    CommandModel {
        name: "logout"@,
        help: "Logout from Evernote."@,
        first_arg: None,
        arguments: Seq::empty(),
        flags: seq![
            flag_model("--force"@, None, "Don't ask about logging out."@),
        ],
    }
}

/// The `settings` command.
pub open spec fn settings_model() -> CommandModel {
    CommandModel {
        name: "settings"@,
        help: "Show and edit current settings."@,
        first_arg: None,
        arguments: seq![
            empty_model(arg_model("--editor"@, None, "Set the editor."@), ArgVal::Str("#GET#"@)),
            empty_model(arg_model("--note_ext"@, None, "Set note extensions."@), ArgVal::Str("#GET#"@)),
            empty_model(arg_model("--extras"@, None, "Set markdown extras."@), ArgVal::Str("#GET#"@)),
        ],
        flags: Seq::empty(),
    }
}

/// The `create` command.
pub open spec fn create_model() -> CommandModel {
    CommandModel {
        name: "create"@,
        help: "Create note in Evernote."@,
        first_arg: None,
        arguments: seq![
            required_model(arg_model("--title"@, Some("-t"@), "The note title."@)),
            default_model(arg_model("--content"@, Some("-c"@), "The note content."@), ArgVal::Str("WRITE"@)),
            repeated_model(arg_model("--tag"@, Some("-tg"@), "Tag to be added to the note."@)),
            arg_model("--created"@, Some("-cr"@), "Set local creation time."@),
            repeated_model(arg_model("--resource"@, Some("-rs"@), "Add a resource to the note."@)),
            arg_model("--notebook"@, Some("-nb"@), "Set the notebook."@),
            arg_model("--reminder"@, Some("-r"@), "Set reminder date/time."@),
            arg_model("--url"@, Some("-u"@), "Set the URL for the note."@),
        ],
        flags: seq![
            flag_model("--raw"@, Some("-r"@), "Edit note with raw ENML."@),
            flag_model("--rawmd"@, Some("-rm"@), "Edit note with raw markdown."@),
        ],
    }
}

/// The `create-linked` command.
pub open spec fn create_linked_model() -> CommandModel {
    CommandModel {
        name: "create-linked"@,
        help: "Create linked note in Evernote."@,
        first_arg: Some("--notebook"@),
        arguments: seq![
            required_model(arg_model("--title"@, Some("-t"@), "The note title."@)),
            required_model(arg_model("--notebook"@, Some("-nb"@), "Linked notebook name."@)),
        ],
        flags: Seq::empty(),
    }
}

/// The `find` command.
pub open spec fn find_model() -> CommandModel {
    CommandModel {
        name: "find"@,
        help: "Search notes in Evernote."@,
        first_arg: Some("--search"@),
        arguments: seq![
            empty_model(arg_model("--search"@, Some("-s"@), "Text to search."@), ArgVal::Str("*"@)),
            repeated_model(arg_model("--tag"@, Some("-tg"@), "Tag sought on the notes."@)),
            arg_model("--notebook"@, Some("-nb"@), "Notebook containing the notes."@),
            arg_model("--date"@, Some("-d"@), "Date or date range."@),
            integer_model(arg_model("--count"@, Some("-cn"@), "How many notes to show."@)),
        ],
        flags: seq![
            flag_model("--content"@, Some("-cs"@), "Search by content."@),
            flag_model("--exact-entry"@, Some("-ee"@), "Search exact entry."@),
            flag_model("--guid"@, Some("-id"@), "Show GUIDs."@),
            flag_model("--ignore-completed"@, Some("-C"@), "Only unfinished reminders."@),
            flag_model("--reminders-only"@, Some("-R"@), "Only notes with reminders."@),
            flag_model("--deleted-only"@, Some("-D"@), "Only deleted notes."@),
            flag_model("--with-notebook"@, Some("-wn"@), "Show notebook names."@),
            flag_model("--with-tags"@, Some("-wt"@), "Show tags."@),
            flag_model("--with-url"@, Some("-wu"@), "Show web URLs."@),
        ],
    }
}

/// The `edit` command.
pub open spec fn edit_model() -> CommandModel {
    CommandModel {
        name: "edit"@,
        help: "Edit note in Evernote."@,
        first_arg: Some("--note"@),
        arguments: seq![
            required_model(arg_model("--note"@, Some("-n"@), "Note name, GUID, or previous search ID."@)),
            arg_model("--title"@, Some("-t"@), "Set new title."@),
            arg_model("--content"@, Some("-c"@), "Set new content."@),
            repeated_model(arg_model("--resource"@, Some("-rs"@), "Add a resource."@)),
            repeated_model(arg_model("--tag"@, Some("-tg"@), "Set tags."@)),
            arg_model("--created"@, Some("-cr"@), "Set local creation time."@),
            arg_model("--notebook"@, Some("-nb"@), "Assign notebook."@),
            arg_model("--reminder"@, Some("-r"@), "Set reminder."@),
            arg_model("--url"@, Some("-u"@), "Set URL."@),
        ],
        flags: seq![
            flag_model("--raw"@, Some("-r"@), "Edit note with raw ENML."@),
            flag_model("--rawmd"@, Some("-rm"@), "Edit note with raw markdown."@),
        ],
    }
}

/// The `edit-linked` command.
pub open spec fn edit_linked_model() -> CommandModel {
    CommandModel {
        name: "edit-linked"@,
        help: "Edit linked note."@,
        first_arg: Some("--notebook"@),
        arguments: seq![
            required_model(arg_model("--notebook"@, Some("-nb"@), "Linked notebook name."@)),
            required_model(arg_model("--note"@, Some("-n"@), "Note title."@)),
        ],
        flags: Seq::empty(),
    }
}

/// The `show` command.
pub open spec fn show_model() -> CommandModel {
    CommandModel {
        name: "show"@,
        help: "Output note in the terminal."@,
        first_arg: Some("--note"@),
        arguments: seq![
            required_model(arg_model("--note"@, Some("-n"@), "Note name, GUID, or previous search ID."@)),
        ],
        flags: seq![
            flag_model("--raw"@, Some("-w"@), "Show raw note body."@),
        ],
    }
}

/// The `remove` command.
pub open spec fn remove_model() -> CommandModel {
    CommandModel {
        name: "remove"@,
        help: "Remove note from Evernote."@,
        first_arg: Some("--note"@),
        arguments: seq![
            required_model(arg_model("--note"@, Some("-n"@), "Note name, GUID, or previous search ID."@)),
        ],
        flags: seq![
            flag_model("--force"@, Some("-f"@), "Don't ask about removing."@),
        ],
    }
}

/// The `dedup` command.
pub open spec fn dedup_model() -> CommandModel {
    CommandModel {
        name: "dedup"@,
        help: "Preview duplicate notes without removing them."@,
        first_arg: None,
        arguments: seq![
            arg_model("--notebook"@, Some("-nb"@), "Notebook to search."@),
        ],
        flags: Seq::empty(),
    }
}

/// The `notebook-list` command.
pub open spec fn notebook_list_model() -> CommandModel {
    CommandModel {
        name: "notebook-list"@,
        help: "Show notebooks."@,
        first_arg: None,
        arguments: Seq::empty(),
        flags: seq![
            flag_model("--guid"@, Some("-id"@), "Show notebook GUIDs."@),
        ],
    }
}

/// The `notebook-create` command.
pub open spec fn notebook_create_model() -> CommandModel {
    CommandModel {
        name: "notebook-create"@,
        help: "Create notebook."@,
        first_arg: None,
        arguments: seq![
            required_model(arg_model("--title"@, Some("-t"@), "New notebook title."@)),
            arg_model("--stack"@, None, "Notebook stack."@),
        ],
        flags: Seq::empty(),
    }
}

/// The `notebook-edit` command.
pub open spec fn notebook_edit_model() -> CommandModel {
    CommandModel {
        name: "notebook-edit"@,
        help: "Rename notebook."@,
        first_arg: Some("--notebook"@),
        arguments: seq![
            required_model(arg_model("--notebook"@, Some("-nb"@), "Notebook name."@)),
            arg_model("--title"@, Some("-t"@), "New notebook title."@),
        ],
        flags: Seq::empty(),
    }
}

/// The `notebook-remove` command.
pub open spec fn notebook_remove_model() -> CommandModel {
    CommandModel {
        name: "notebook-remove"@,
        help: "Remove notebook."@,
        first_arg: Some("--notebook"@),
        arguments: seq![
            required_model(arg_model("--notebook"@, Some("-nb"@), "Notebook name."@)),
        ],
        flags: seq![
            flag_model("--force"@, None, "Don't ask about removing notebook."@),
        ],
    }
}

/// The `tag-list` command.
pub open spec fn tag_list_model() -> CommandModel {
    CommandModel {
        name: "tag-list"@,
        help: "Show tags."@,
        first_arg: None,
        arguments: Seq::empty(),
        flags: seq![
            flag_model("--guid"@, Some("-id"@), "Show tag GUIDs."@),
        ],
    }
}

/// The `tag-create` command.
pub open spec fn tag_create_model() -> CommandModel {
    CommandModel {
        name: "tag-create"@,
        help: "Create tag."@,
        first_arg: None,
        arguments: seq![
            required_model(arg_model("--title"@, Some("-t"@), "New tag title."@)),
        ],
        flags: Seq::empty(),
    }
}

/// The `tag-edit` command.
pub open spec fn tag_edit_model() -> CommandModel {
    CommandModel {
        name: "tag-edit"@,
        help: "Rename tag."@,
        first_arg: Some("--tagname"@),
        arguments: seq![
            required_model(arg_model("--tagname"@, Some("-tgn"@), "Tag name."@)),
            arg_model("--title"@, Some("-t"@), "New tag title."@),
        ],
        flags: Seq::empty(),
    }
}

/// The `tag-remove` command.
pub open spec fn tag_remove_model() -> CommandModel {
    CommandModel {
        name: "tag-remove"@,
        help: "Remove tag."@,
        first_arg: Some("--tagname"@),
        arguments: seq![
            required_model(arg_model("--tagname"@, Some("-tgn"@), "Tag name."@)),
        ],
        flags: seq![
            flag_model("--force"@, None, "Don't ask about removing."@),
        ],
    }
}

/// The built-in commands, in their order.
pub open spec fn default_table() -> Seq<CommandModel> {
    seq![
        user_model(),
        login_model(),
        logout_model(),
        settings_model(),
        create_model(),
        create_linked_model(),
        find_model(),
        edit_model(),
        edit_linked_model(),
        show_model(),
        remove_model(),
        dedup_model(),
        notebook_list_model(),
        notebook_create_model(),
        notebook_edit_model(),
        notebook_remove_model(),
        tag_list_model(),
        tag_create_model(),
        tag_edit_model(),
        tag_remove_model(),
    ]
}

fn user_command() -> (res: CommandSpec)
    ensures
        command_model(res) == user_model(),
{
    let res = CommandSpec::new("user", "Show information about active user.")
        .flag(OptionSpec::flag("--full", "Show full information."));
    assert(command_model(res) =~~= user_model());
    res
}

fn login_command() -> (res: CommandSpec)
    ensures
        command_model(res) == login_model(),
{
    let res = CommandSpec::new("login", "Authorize in Evernote.");
    assert(command_model(res) =~~= login_model());
    res
}

fn logout_command() -> (res: CommandSpec)
    ensures
        command_model(res) == logout_model(),
{
    let res = CommandSpec::new("logout", "Logout from Evernote.")
        .flag(OptionSpec::flag("--force", "Don't ask about logging out."));
    assert(command_model(res) =~~= logout_model());
    res
}

fn settings_command() -> (res: CommandSpec)
    ensures
        command_model(res) == settings_model(),
{
    let res = CommandSpec::new("settings", "Show and edit current settings.")
        .argument(
            OptionSpec::argument("--editor", "Set the editor.")
                .empty_value(ArgValue::String("#GET#".to_string())),
        )
        .argument(
            OptionSpec::argument("--note_ext", "Set note extensions.")
                .empty_value(ArgValue::String("#GET#".to_string())),
        )
        .argument(
            OptionSpec::argument("--extras", "Set markdown extras.")
                .empty_value(ArgValue::String("#GET#".to_string())),
        );
    assert(command_model(res) =~~= settings_model());
    res
}

fn create_command() -> (res: CommandSpec)
    ensures
        command_model(res) == create_model(),
{
    let res = CommandSpec::new("create", "Create note in Evernote.")
        .argument(
            OptionSpec::argument("--title", "The note title.")
                .alt("-t")
                .required(),
        )
        .argument(
            OptionSpec::argument("--content", "The note content.")
                .alt("-c")
                .default_value(ArgValue::String("WRITE".to_string())),
        )
        .argument(
            OptionSpec::argument("--tag", "Tag to be added to the note.")
                .alt("-tg")
                .repetitive(),
        )
        .argument(OptionSpec::argument("--created", "Set local creation time.").alt("-cr"))
        .argument(
            OptionSpec::argument("--resource", "Add a resource to the note.")
                .alt("-rs")
                .repetitive(),
        )
        .argument(OptionSpec::argument("--notebook", "Set the notebook.").alt("-nb"))
        .argument(OptionSpec::argument("--reminder", "Set reminder date/time.").alt("-r"))
        .argument(OptionSpec::argument("--url", "Set the URL for the note.").alt("-u"))
        .flag(OptionSpec::flag("--raw", "Edit note with raw ENML.").alt("-r"))
        .flag(OptionSpec::flag("--rawmd", "Edit note with raw markdown.").alt("-rm"));
    assert(command_model(res) =~~= create_model());
    res
}

fn create_linked_command() -> (res: CommandSpec)
    ensures
        command_model(res) == create_linked_model(),
{
    let res = CommandSpec::new("create-linked", "Create linked note in Evernote.")
        .first_arg("--notebook")
        .argument(
            OptionSpec::argument("--title", "The note title.")
                .alt("-t")
                .required(),
        )
        .argument(
            OptionSpec::argument("--notebook", "Linked notebook name.")
                .alt("-nb")
                .required(),
        );
    assert(command_model(res) =~~= create_linked_model());
    res
}

fn find_command() -> (res: CommandSpec)
    ensures
        command_model(res) == find_model(),
{
    let res = CommandSpec::new("find", "Search notes in Evernote.")
        .first_arg("--search")
        .argument(
            OptionSpec::argument("--search", "Text to search.")
                .alt("-s")
                .empty_value(ArgValue::String("*".to_string())),
        )
        .argument(
            OptionSpec::argument("--tag", "Tag sought on the notes.")
                .alt("-tg")
                .repetitive(),
        )
        .argument(
            OptionSpec::argument("--notebook", "Notebook containing the notes.").alt("-nb"),
        )
        .argument(OptionSpec::argument("--date", "Date or date range.").alt("-d"))
        .argument(
            OptionSpec::argument("--count", "How many notes to show.")
                .alt("-cn")
                .integer(),
        )
        .flag(OptionSpec::flag("--content", "Search by content.").alt("-cs"))
        .flag(OptionSpec::flag("--exact-entry", "Search exact entry.").alt("-ee"))
        .flag(OptionSpec::flag("--guid", "Show GUIDs.").alt("-id"))
        .flag(OptionSpec::flag("--ignore-completed", "Only unfinished reminders.").alt("-C"))
        .flag(OptionSpec::flag("--reminders-only", "Only notes with reminders.").alt("-R"))
        .flag(OptionSpec::flag("--deleted-only", "Only deleted notes.").alt("-D"))
        .flag(OptionSpec::flag("--with-notebook", "Show notebook names.").alt("-wn"))
        .flag(OptionSpec::flag("--with-tags", "Show tags.").alt("-wt"))
        .flag(OptionSpec::flag("--with-url", "Show web URLs.").alt("-wu"));
    assert(command_model(res) =~~= find_model());
    res
}

fn edit_command() -> (res: CommandSpec)
    ensures
        command_model(res) == edit_model(),
{
    let res = CommandSpec::new("edit", "Edit note in Evernote.")
        .first_arg("--note")
        .argument(
            OptionSpec::argument("--note", "Note name, GUID, or previous search ID.")
                .alt("-n")
                .required(),
        )
        .argument(OptionSpec::argument("--title", "Set new title.").alt("-t"))
        .argument(OptionSpec::argument("--content", "Set new content.").alt("-c"))
        .argument(
            OptionSpec::argument("--resource", "Add a resource.")
                .alt("-rs")
                .repetitive(),
        )
        .argument(
            OptionSpec::argument("--tag", "Set tags.")
                .alt("-tg")
                .repetitive(),
        )
        .argument(OptionSpec::argument("--created", "Set local creation time.").alt("-cr"))
        .argument(OptionSpec::argument("--notebook", "Assign notebook.").alt("-nb"))
        .argument(OptionSpec::argument("--reminder", "Set reminder.").alt("-r"))
        .argument(OptionSpec::argument("--url", "Set URL.").alt("-u"))
        .flag(OptionSpec::flag("--raw", "Edit note with raw ENML.").alt("-r"))
        .flag(OptionSpec::flag("--rawmd", "Edit note with raw markdown.").alt("-rm"));
    assert(command_model(res) =~~= edit_model());
    res
}

fn edit_linked_command() -> (res: CommandSpec)
    ensures
        command_model(res) == edit_linked_model(),
{
    let res = CommandSpec::new("edit-linked", "Edit linked note.")
        .first_arg("--notebook")
        .argument(
            OptionSpec::argument("--notebook", "Linked notebook name.")
                .alt("-nb")
                .required(),
        )
        .argument(
            OptionSpec::argument("--note", "Note title.")
                .alt("-n")
                .required(),
        );
    assert(command_model(res) =~~= edit_linked_model());
    res
}

fn show_command() -> (res: CommandSpec)
    ensures
        command_model(res) == show_model(),
{
    let res = CommandSpec::new("show", "Output note in the terminal.")
        .first_arg("--note")
        .argument(
            OptionSpec::argument("--note", "Note name, GUID, or previous search ID.")
                .alt("-n")
                .required(),
        )
        .flag(OptionSpec::flag("--raw", "Show raw note body.").alt("-w"));
    assert(command_model(res) =~~= show_model());
    res
}

fn remove_command() -> (res: CommandSpec)
    ensures
        command_model(res) == remove_model(),
{
    let res = CommandSpec::new("remove", "Remove note from Evernote.")
        .first_arg("--note")
        .argument(
            OptionSpec::argument("--note", "Note name, GUID, or previous search ID.")
                .alt("-n")
                .required(),
        )
        .flag(OptionSpec::flag("--force", "Don't ask about removing.").alt("-f"));
    assert(command_model(res) =~~= remove_model());
    res
}

fn dedup_command() -> (res: CommandSpec)
    ensures
        command_model(res) == dedup_model(),
{
    let res = CommandSpec::new("dedup", "Preview duplicate notes without removing them.")
        .argument(OptionSpec::argument("--notebook", "Notebook to search.").alt("-nb"));
    assert(command_model(res) =~~= dedup_model());
    res
}

fn notebook_list_command() -> (res: CommandSpec)
    ensures
        command_model(res) == notebook_list_model(),
{
    let res = CommandSpec::new("notebook-list", "Show notebooks.")
        .flag(OptionSpec::flag("--guid", "Show notebook GUIDs.").alt("-id"));
    assert(command_model(res) =~~= notebook_list_model());
    res
}

fn notebook_create_command() -> (res: CommandSpec)
    ensures
        command_model(res) == notebook_create_model(),
{
    let res = CommandSpec::new("notebook-create", "Create notebook.")
        .argument(
            OptionSpec::argument("--title", "New notebook title.")
                .alt("-t")
                .required(),
        )
        .argument(OptionSpec::argument("--stack", "Notebook stack."));
    assert(command_model(res) =~~= notebook_create_model());
    res
}

fn notebook_edit_command() -> (res: CommandSpec)
    ensures
        command_model(res) == notebook_edit_model(),
{
    let res = CommandSpec::new("notebook-edit", "Rename notebook.")
        .first_arg("--notebook")
        .argument(
            OptionSpec::argument("--notebook", "Notebook name.")
                .alt("-nb")
                .required(),
        )
        .argument(OptionSpec::argument("--title", "New notebook title.").alt("-t"));
    assert(command_model(res) =~~= notebook_edit_model());
    res
}

fn notebook_remove_command() -> (res: CommandSpec)
    ensures
        command_model(res) == notebook_remove_model(),
{
    let res = CommandSpec::new("notebook-remove", "Remove notebook.")
        .first_arg("--notebook")
        .argument(
            OptionSpec::argument("--notebook", "Notebook name.")
                .alt("-nb")
                .required(),
        )
        .flag(OptionSpec::flag(
            "--force",
            "Don't ask about removing notebook.",
        ));
    assert(command_model(res) =~~= notebook_remove_model());
    res
}

fn tag_list_command() -> (res: CommandSpec)
    ensures
        command_model(res) == tag_list_model(),
{
    let res = CommandSpec::new("tag-list", "Show tags.")
        .flag(OptionSpec::flag("--guid", "Show tag GUIDs.").alt("-id"));
    assert(command_model(res) =~~= tag_list_model());
    res
}

fn tag_create_command() -> (res: CommandSpec)
    ensures
        command_model(res) == tag_create_model(),
{
    let res = CommandSpec::new("tag-create", "Create tag.").argument(
        OptionSpec::argument("--title", "New tag title.")
            .alt("-t")
            .required(),
    );
    assert(command_model(res) =~~= tag_create_model());
    res
}

fn tag_edit_command() -> (res: CommandSpec)
    ensures
        command_model(res) == tag_edit_model(),
{
    let res = CommandSpec::new("tag-edit", "Rename tag.")
        .first_arg("--tagname")
        .argument(
            OptionSpec::argument("--tagname", "Tag name.")
                .alt("-tgn")
                .required(),
        )
        .argument(OptionSpec::argument("--title", "New tag title.").alt("-t"));
    assert(command_model(res) =~~= tag_edit_model());
    res
}

fn tag_remove_command() -> (res: CommandSpec)
    ensures
        command_model(res) == tag_remove_model(),
{
    let res = CommandSpec::new("tag-remove", "Remove tag.")
        .first_arg("--tagname")
        .argument(
            OptionSpec::argument("--tagname", "Tag name.")
                .alt("-tgn")
                .required(),
        )
        .flag(OptionSpec::flag("--force", "Don't ask about removing."));
    assert(command_model(res) =~~= tag_remove_model());
    res
}


/// The commands of reeknote.
pub fn default_commands() -> (res: Vec<CommandSpec>)
    ensures
        res@.map_values(|c: CommandSpec| command_model(c)) == default_table(),
        command_names(res@) == default_command_names(),
{
    let mut v: Vec<CommandSpec> = Vec::new();
    v.push(user_command());
    v.push(login_command());
    v.push(logout_command());
    v.push(settings_command());
    v.push(create_command());
    v.push(create_linked_command());
    v.push(find_command());
    v.push(edit_command());
    v.push(edit_linked_command());
    v.push(show_command());
    v.push(remove_command());
    v.push(dedup_command());
    v.push(notebook_list_command());
    v.push(notebook_create_command());
    v.push(notebook_edit_command());
    v.push(notebook_remove_command());
    v.push(tag_list_command());
    v.push(tag_create_command());
    v.push(tag_edit_command());
    v.push(tag_remove_command());
    assert(v@.map_values(|c: CommandSpec| command_model(c)) =~= default_table());
    assert(command_names(v@) =~= default_command_names()) by {
        assert forall|i: int| 0 <= i < v@.len() implies #[trigger] v@[i].name@ == default_command_names()[i] by {
            assert(command_model(v@[i]) == default_table()[i]);
        }
    }
    v
}

impl Default for ArgParser {
    /// The parser over the commands of reeknote.
    fn default() -> (res: Self)
        ensures
            command_names(res.commands_spec()) == default_command_names(),
            res.commands_spec().map_values(|c: CommandSpec| command_model(c)) == default_table(),
    {
        ArgParser { commands: default_commands() }
    }
}

/// The items after the command name, as characters.
fn rest_of(args: &Vec<String>) -> (r: Vec<Vec<char>>)
    requires
        args@.len() >= 1,
    ensures
        crate::text::views(r@) == string_views(args@).skip(1),
{
    let ghost target = string_views(args@).skip(1);
    let mut r: Vec<Vec<char>> = Vec::new();
    let mut i: usize = 1;
    while i < args.len()
        invariant
            1 <= i <= args@.len(),
            target == string_views(args@).skip(1),
            crate::text::views(r@) == target.take(i - 1),
        decreases args.len() - i,
    {
        let ghost before = r@;
        r.push(chars_of(args[i].as_str()));
        assert(crate::text::views(r@) =~= crate::text::views(before).push(args@[i as int]@));
        assert(crate::text::views(r@) =~= target.take(i as int));
        i += 1;
    }
    assert(target.take(i - 1) =~= target);
    r
}

/// The names of `specs`, as characters.
fn spec_names(specs: &Vec<OptionSpec>, out: &mut Vec<Vec<char>>)
    ensures
        crate::text::views(final(out)@) == crate::text::views(old(out)@) + option_names(specs@),
{
    let ghost head = crate::text::views(out@);
    let mut i: usize = 0;
    while i < specs.len()
        invariant
            i <= specs@.len(),
            crate::text::views(out@) == head + option_names(specs@.take(i as int)),
        decreases specs.len() - i,
    {
        let ghost before = out@;
        out.push(chars_of(specs[i].name));
        assert(crate::text::views(out@) =~= crate::text::views(before).push(specs@[i as int].name@));
        assert(option_names(specs@.take(i + 1)) =~= option_names(specs@.take(i as int)).push(specs@[i as int].name@));
        i += 1;
    }
    assert(specs@.take(i as int) =~= specs@);
}

impl ArgParser {
    /// The position of the first command named `name`.
    fn command_index(&self, name: &[char]) -> (r: Option<usize>)
        ensures
            match r {
                Some(i) => i < self.commands@.len() && command_named(self.commands@, name@) == Some(self.commands@[i as int]),
                None => command_named(self.commands@, name@) is None,
            },
    {
        let mut i: usize = 0;
        assert(self.commands@.skip(0) =~= self.commands@);
        while i < self.commands.len()
            invariant
                i <= self.commands@.len(),
                command_named(self.commands@, name@) == command_named(self.commands@.skip(i as int), name@),
            decreases self.commands.len() - i,
        {
            assert(self.commands@.skip(i as int)[0] == self.commands@[i as int]);
            if chars_eq(chars_of(self.commands[i].name).as_slice(), name) {
                return Some(i);
            }
            assert(self.commands@.skip(i as int).skip(1) =~= self.commands@.skip(i + 1));
            i += 1;
        }
        None
    }

    /// The names that complete the words typed after `autocomplete`.
    fn autocomplete(&self, args: &Vec<Vec<char>>) -> (res: String)
        ensures
            res@ == autocomplete_spec(self.commands_spec(), crate::text::views(args@)),
    {
        let ghost cmds = self.commands@;
        let mut parts: Vec<Vec<char>> = Vec::new();
        if args.len() == 0 {
            let mut i: usize = 0;
            while i < self.commands.len()
                invariant
                    i <= cmds.len(),
                    cmds == self.commands@,
                    crate::text::views(parts@) == command_names(cmds.take(i as int)),
                decreases self.commands.len() - i,
            {
                let ghost before = parts@;
                parts.push(chars_of(self.commands[i].name));
                assert(crate::text::views(parts@) =~= crate::text::views(before).push(cmds[i as int].name@));
                assert(command_names(cmds.take(i + 1)) =~= command_names(cmds.take(i as int)).push(cmds[i as int].name@));
                i += 1;
            }
            assert(cmds.take(i as int) =~= cmds);
        } else {
            match self.command_index(args[0].as_slice()) {
                Some(ci) => {
                    let c = &self.commands[ci];
                    spec_names(&c.arguments, &mut parts);
                    spec_names(&c.flags, &mut parts);
                    assert(option_names(specs_of(*c)) =~= option_names(c.arguments@) + option_names(c.flags@));
                    assert(crate::text::views(parts@) =~= option_names(specs_of(*c)));
                },
                None => {
                    let p = args[0].as_slice();
                    let mut i: usize = 0;
                    while i < self.commands.len()
                        invariant
                            i <= cmds.len(),
                            cmds == self.commands@,
                            crate::text::views(parts@) == command_names(commands_starting(cmds.take(i as int), p@)),
                        decreases self.commands.len() - i,
                    {
                        assert(cmds.take(i + 1).drop_last() =~= cmds.take(i as int));
                        assert(cmds.take(i + 1).last() == cmds[i as int]);
                        let name = chars_of(self.commands[i].name);
                        if crate::text::starts_with(name.as_slice(), p) {
                            let ghost before = parts@;
                            parts.push(name);
                            assert(crate::text::views(parts@) =~= crate::text::views(before).push(cmds[i as int].name@));
                            assert(command_names(commands_starting(cmds.take(i + 1), p@)) =~= command_names(
                                commands_starting(cmds.take(i as int), p@),
                            ).push(cmds[i as int].name@));
                        }
                        i += 1;
                    }
                    assert(cmds.take(i as int) =~= cmds);
                },
            }
        }
        let sep = vec![' '];
        assert(sep@ =~= seq![' ']);
        let joined = crate::text::join(&parts, sep.as_slice());
        string_of(joined.as_slice())
    }

    /// Parses a command line: the command's name, then its options.
    pub fn parse(&self, args: Vec<String>) -> (res: Result<ParseOutcome, ParseError>)
        ensures
            answers(res, parse_spec(self.commands_spec(), string_views(args@))),
    {
        let ghost argv = string_views(args@);
        if args.len() == 0 {
            return Ok(ParseOutcome::About);
        }
        let rest = rest_of(&args);
        let command_name = args[0].as_str();
        if str_eq(command_name, "autocomplete") {
            return Ok(ParseOutcome::Help(self.autocomplete(&rest)));
        }
        if str_eq(command_name, "--help") {
            return Ok(ParseOutcome::Help(self.help(None)));
        }
        let name_chars = chars_of(command_name);
        let ci = match self.command_index(name_chars.as_slice()) {
            Some(ci) => ci,
            None => {
                let mut m = chars_of("Unexpected command ");
                m.push('"');
                push_all(&mut m, name_chars.as_slice());
                m.push('"');
                assert(m@ =~= msg_unexpected_command(argv[0]));
                return Err(ParseError { message: string_of(m.as_slice()), help: self.help(None) });
            },
        };
        let command = &self.commands[ci];
        if names_item(&rest, "--help") {
            return Ok(ParseOutcome::Help(self.help(Some(command))));
        }
        let input = prepare_input(command, rest);
        match values_exec(command, &input) {
            Err(e) => Err(ParseError { message: string_of(e.as_slice()), help: self.help(Some(command)) }),
            Ok(data) => {
                let ghost m = values_spec(*command, crate::text::views(input@))->Ok_0;
                Ok(ParseOutcome::Parsed(normalize_keys(&data, Ghost(m))))
            },
        }
    }
}

} // verus!
