//! The command and argument rules of the command line, read from NOML.
use vstd::prelude::*;
use crate::noml::{Value, comments_closed, debug_of, debug_text, parse, parsed_document, plain, value_text};
use crate::domain::error::signed_decimal;
use crate::text;

verus! {

/// A command, the other names it answers to, and whether it needs a
/// project.
pub struct CommandRule {
    pub command: String,
    pub aliases: Vec<String>,
    pub requires_project: bool,
}

/// An option of the command line.
pub struct ArgumentRule {
    pub name: String,
    pub takes_value: bool,
    pub repeatable: bool,
}

struct CommandRules {
    commands: Vec<CommandRule>,
    requires_initialization: Vec<String>,
    accepts_files_as_input: Vec<String>,
}

pub struct BaseRules {
    pub commands: Vec<CommandRule>,
    pub arguments: Vec<ArgumentRule>,
    /// Commands that configure the build directory first when it is not.
    pub requires_initialization: Vec<String>,
    /// Commands that take a source file in place of a project.
    pub accepts_files_as_input: Vec<String>,
}

/// Whether a rule answers to `name`, as its command or an alias.
pub open spec fn names(rule: CommandRule, name: Seq<char>) -> bool {
    rule.command@ == name || text::views(rule.aliases@).contains(name)
}

/// The first rule that answers to `name`.
pub open spec fn first_naming(rules: Seq<CommandRule>, name: Seq<char>) -> Option<int>
    decreases rules.len(),
{
    if rules.len() == 0 {
        None
    } else {
        match first_naming(rules.drop_last(), name) {
            Some(i) => Some(i),
            None => if names(rules.last(), name) {
                Some(rules.len() - 1)
            } else {
                None
            },
        }
    }
}

/// The first rule whose command is `name`.
pub open spec fn first_command(rules: Seq<CommandRule>, name: Seq<char>) -> Option<int>
    decreases rules.len(),
{
    if rules.len() == 0 {
        None
    } else {
        match first_command(rules.drop_last(), name) {
            Some(i) => Some(i),
            None => if rules.last().command@ == name {
                Some(rules.len() - 1)
            } else {
                None
            },
        }
    }
}

fn contains_text(list: &Vec<String>, name: &str) -> (r: bool)
    ensures
        r == text::views(list@).contains(name@),
{
    let mut i: usize = 0;
    while i < list.len()
        invariant
            i <= list@.len(),
            forall|j: int| 0 <= j < i ==> list@[j]@ != name@,
        decreases list@.len() - i,
    {
        if text::same(list[i].as_str(), name) {
            assert(text::views(list@)[i as int] == name@);
            return true;
        }
        i = i + 1;
    }
    proof {
        if text::views(list@).contains(name@) {
            let j = choose|j: int| 0 <= j < text::views(list@).len() && text::views(list@)[j] == name@;
            assert(list@[j]@ == name@);
        }
    }
    false
}

/// The rules as text: command rules with the commands that configure
/// first and those that take a file, and the argument rules.
pub open spec fn base_rules_text(b: BaseRules) -> (
    (Seq<(Seq<char>, Seq<Seq<char>>, bool)>, Seq<Seq<char>>, Seq<Seq<char>>),
    Seq<(Seq<char>, bool, bool)>,
) {
    (
        (
            b.commands@.map_values(|c: CommandRule| rule_text(c)),
            text::views(b.requires_initialization@),
            text::views(b.accepts_files_as_input@),
        ),
        arguments_text(b.arguments@),
    )
}

/// Whether rules as text are valid: at least one command, every command
/// named and declared once, every argument named.
pub open spec fn rules_valid_text(
    t: (Seq<(Seq<char>, Seq<Seq<char>>, bool)>, Seq<Seq<char>>, Seq<Seq<char>>),
    args: Seq<(Seq<char>, bool, bool)>,
) -> bool {
    &&& t.0.len() > 0
    &&& forall|i: int| 0 <= i < t.0.len() ==> (#[trigger] t.0[i]).0.len() > 0
    &&& forall|i: int, j: int| 0 <= i < j < t.0.len() ==> (#[trigger] t.0[i]).0 != (#[trigger] t.0[j]).0
    &&& forall|i: int| 0 <= i < args.len() ==> (#[trigger] args[i]).0.len() > 0
}

/// What loading gives for the command rules `t` and the argument rules
/// that the argument document holds.
pub open spec fn loaded(
    t: (Seq<(Seq<char>, Seq<Seq<char>>, bool)>, Seq<Seq<char>>, Seq<Seq<char>>),
    arguments: Result<Seq<(Seq<char>, bool, bool)>, Seq<char>>,
    r: Result<BaseRules, String>,
) -> bool {
    match arguments {
        Err(m) => r matches Err(x) && x@ == m,
        Ok(args) => (r is Ok <==> rules_valid_text(t, args)) && (r matches Ok(b) ==> base_rules_text(b) == (t, args)),
    }
}

impl BaseRules {
    /// The rules hold at least one command, every command has a name, no
    /// command is declared twice and every argument has a name.
    pub open spec fn valid(&self) -> bool {
        &&& self.commands@.len() > 0
        &&& forall|i: int| 0 <= i < self.commands@.len() ==> (#[trigger] self.commands@[i]).command@.len() > 0
        &&& forall|i: int, j: int|
            0 <= i < j < self.commands@.len() ==> (#[trigger] self.commands@[i]).command@ != (
            #[trigger] self.commands@[j]).command@
        &&& forall|i: int| 0 <= i < self.arguments@.len() ==> (#[trigger] self.arguments@[i]).name@.len() > 0
    }

    /// The rules built into the command line: those that the built-in
    /// command and argument documents hold, when they are valid.
    pub fn load() -> (r: Result<BaseRules, String>)
        ensures
            r matches Ok(rules) ==> rules.valid(),
            crate::noml::closed_comments(COMMAND_RULES@) && crate::noml::closed_comments(ARGUMENT_RULES@) ==> match (
                parsed_document(COMMAND_RULES@),
                parsed_document(ARGUMENT_RULES@),
            ) {
                (Some(c), Some(a)) => plain(c) && plain(a) ==> exists|dc: Value|
                    #[trigger] value_text(dc) == c && match document_rules(dc) {
                        Err(m) => r matches Err(x) && x@ == m,
                        Ok(t) => exists|da: Value| #[trigger] value_text(da) == a && loaded(t, document_arguments(da), r),
                    },
                _ => r is Err,
            },
    {
        let command_rules = parse_commands(command_rules_text())?;
        let ghost t = rules_text(command_rules);
        let arguments = parse_arguments(argument_rules_text())?;
        let ghost args = arguments_text(arguments@);
        let rules = BaseRules {
            commands: command_rules.commands,
            arguments,
            requires_initialization: command_rules.requires_initialization,
            accepts_files_as_input: command_rules.accepts_files_as_input,
        };
        assert(base_rules_text(rules) == (t, args));
        proof {
            let cs = rules.commands@;
            assert(t.0.len() == cs.len());
            assert forall|i: int| 0 <= i < cs.len() implies #[trigger] t.0[i].0 == cs[i].command@ by {}
            assert(args.len() == rules.arguments@.len());
            assert forall|i: int| 0 <= i < args.len() implies #[trigger] args[i].0 == rules.arguments@[i].name@ by {}
            if rules.valid() {
                assert forall|i: int, j: int| 0 <= i < j < t.0.len() implies (#[trigger] t.0[i]).0 != (#[trigger] t.0[j]).0 by {
                    assert(cs[i].command@ != cs[j].command@);
                }
            }
            if rules_valid_text(t, args) {
                assert forall|i: int, j: int| 0 <= i < j < cs.len() implies (#[trigger] cs[i]).command@ != (#[trigger] cs[j]).command@ by {
                    assert(t.0[i].0 != t.0[j].0);
                }
                assert forall|i: int| 0 <= i < cs.len() implies (#[trigger] cs[i]).command@.len() > 0 by {
                    assert(t.0[i].0.len() > 0);
                }
                assert forall|i: int| 0 <= i < rules.arguments@.len() implies (#[trigger] rules.arguments@[i]).name@.len() > 0 by {
                    assert(args[i].0.len() > 0);
                }
            }
        }
        assert(rules.valid() <==> rules_valid_text(t, args));
        rules.validate()?;
        Ok(rules)
    }

    /// The command that `name` stands for: the first rule whose command or
    /// alias it is.
    pub fn command_name(&self, name: &str) -> (r: Option<&str>)
        ensures
            match first_naming(self.commands@, name@) {
                Some(i) => r matches Some(c) && c@ == self.commands@[i].command@,
                None => r is None,
            },
    {
        let mut i: usize = 0;
        while i < self.commands.len()
            invariant
                i <= self.commands@.len(),
                first_naming(self.commands@.take(i as int), name@) is None,
            decreases self.commands@.len() - i,
        {
            let rule = &self.commands[i];
            assert(self.commands@.take(i + 1).drop_last() == self.commands@.take(i as int));
            if text::same(rule.command.as_str(), name) || contains_text(&rule.aliases, name) {
                proof {
                    lemma_first_naming_prefix(self.commands@, name@, i + 1);
                }
                return Some(rule.command.as_str());
            }
            i = i + 1;
        }
        assert(self.commands@.take(self.commands@.len() as int) == self.commands@);
        None
    }

    /// The rule of a command, by its own name.
    pub fn command(&self, name: &str) -> (r: Option<&CommandRule>)
        ensures
            match first_command(self.commands@, name@) {
                Some(i) => r == Some(&self.commands@[i]),
                None => r is None,
            },
    {
        let mut i: usize = 0;
        while i < self.commands.len()
            invariant
                i <= self.commands@.len(),
                first_command(self.commands@.take(i as int), name@) is None,
            decreases self.commands@.len() - i,
        {
            assert(self.commands@.take(i + 1).drop_last() == self.commands@.take(i as int));
            if text::same(self.commands[i].command.as_str(), name) {
                proof {
                    lemma_first_command_prefix(self.commands@, name@, i + 1);
                }
                return Some(&self.commands[i]);
            }
            i = i + 1;
        }
        assert(self.commands@.take(self.commands@.len() as int) == self.commands@);
        None
    }

    /// Whether a command configures the build directory first when needed.
    pub fn requires_initialization(&self, command: &str) -> (r: bool)
        ensures
            r == text::views(self.requires_initialization@).contains(command@),
    {
        contains_text(&self.requires_initialization, command)
    }

    /// Whether a command takes a source file in place of a project.
    pub fn accepts_files_as_input(&self, command: &str) -> (r: bool)
        ensures
            r == text::views(self.accepts_files_as_input@).contains(command@),
    {
        contains_text(&self.accepts_files_as_input, command)
    }

    fn validate(&self) -> (r: Result<(), String>)
        ensures
            r is Ok <==> self.valid(),
    {
        if self.commands.len() == 0 {
            return Err(text::owned("base command rules cannot be empty"));
        }
        let mut index: usize = 0;
        while index < self.commands.len()
            invariant
                index <= self.commands@.len(),
                forall|i: int| 0 <= i < index ==> (#[trigger] self.commands@[i]).command@.len() > 0,
                forall|i: int, j: int|
                    0 <= i < j < index ==> (#[trigger] self.commands@[i]).command@ != (
                    #[trigger] self.commands@[j]).command@,
            decreases self.commands@.len() - index,
        {
            if self.commands[index].command.as_str().unicode_len() == 0 {
                assert(self.commands@[index as int].command@.len() == 0);
                let mut m = text::owned("base command rule ");
                let digits = text::u64_to_string(index as u64);
                text::push_str(&mut m, digits.as_str());
                text::push_str(&mut m, " has no command");
                return Err(m);
            }
            let mut other: usize = 0;
            while other < index
                invariant
                    other <= index < self.commands@.len(),
                    forall|i: int| 0 <= i < other ==> (#[trigger] self.commands@[i]).command@ != self.commands@[index as int].command@,
                decreases index - other,
            {
                if text::same(self.commands[other].command.as_str(), self.commands[index].command.as_str()) {
                    assert(self.commands@[other as int].command@ == self.commands@[index as int].command@);
                    let mut m = text::owned("duplicate base command '");
                    text::push_str(&mut m, self.commands[index].command.as_str());
                    text::push_str(&mut m, "'");
                    return Err(m);
                }
                other = other + 1;
            }
            index = index + 1;
        }
        let mut a: usize = 0;
        while a < self.arguments.len()
            invariant
                a <= self.arguments@.len(),
                forall|i: int| 0 <= i < a ==> (#[trigger] self.arguments@[i]).name@.len() > 0,
            decreases self.arguments@.len() - a,
        {
            if self.arguments[a].name.as_str().unicode_len() == 0 {
                assert(self.arguments@[a as int].name@.len() == 0);
                return Err(text::owned("base argument rule has no name"));
            }
            a = a + 1;
        }
        Ok(())
    }
}

proof fn lemma_first_naming_prefix(rules: Seq<CommandRule>, name: Seq<char>, k: int)
    requires
        0 < k <= rules.len(),
        first_naming(rules.take(k - 1), name) is None,
        names(rules[k - 1], name),
    ensures
        first_naming(rules, name) == Some(k - 1),
    decreases rules.len(),
{
    assert(rules.take(k).drop_last() == rules.take(k - 1));
    if k < rules.len() {
        assert(rules.drop_last().take(k - 1) == rules.take(k - 1));
        assert(rules.drop_last()[k - 1] == rules[k - 1]);
        lemma_first_naming_prefix(rules.drop_last(), name, k);
    } else {
        assert(rules.take(k) == rules);
    }
}

proof fn lemma_first_command_prefix(rules: Seq<CommandRule>, name: Seq<char>, k: int)
    requires
        0 < k <= rules.len(),
        first_command(rules.take(k - 1), name) is None,
        rules[k - 1].command@ == name,
    ensures
        first_command(rules, name) == Some(k - 1),
    decreases rules.len(),
{
    assert(rules.take(k).drop_last() == rules.take(k - 1));
    if k < rules.len() {
        assert(rules.drop_last().take(k - 1) == rules.take(k - 1));
        assert(rules.drop_last()[k - 1] == rules[k - 1]);
        lemma_first_command_prefix(rules.drop_last(), name, k);
    } else {
        assert(rules.take(k) == rules);
    }
}

/// The index of the property named `k`.
pub open spec fn lookup(es: Seq<(String, Value)>, k: Seq<char>) -> Option<int>
    decreases es.len(),
{
    if es.len() == 0 {
        None
    } else {
        match lookup(es.drop_last(), k) {
            Some(i) => Some(i),
            None => if es.last().0@ == k {
                Some(es.len() - 1)
            } else {
                None
            },
        }
    }
}

proof fn lemma_lookup_prefix(es: Seq<(String, Value)>, k: Seq<char>, n: int)
    requires
        0 < n <= es.len(),
        lookup(es.take(n - 1), k) is None,
        es[n - 1].0@ == k,
    ensures
        lookup(es, k) == Some(n - 1),
    decreases es.len(),
{
    assert(es.take(n).drop_last() == es.take(n - 1));
    if n < es.len() {
        assert(es.drop_last().take(n - 1) == es.take(n - 1));
        assert(es.drop_last()[n - 1] == es[n - 1]);
        lemma_lookup_prefix(es.drop_last(), k, n);
    } else {
        assert(es.take(n) == es);
    }
}

/// The value of the property named `name`.
pub(crate) fn get<'a>(fields: &'a Vec<(String, Value)>, name: &str) -> (r: Option<&'a Value>)
    ensures
        match lookup(fields@, name@) {
            Some(i) => r == Some(&fields@[i].1),
            None => r is None,
        },
{
    let mut i: usize = 0;
    while i < fields.len()
        invariant
            i <= fields@.len(),
            lookup(fields@.take(i as int), name@) is None,
        decreases fields@.len() - i,
    {
        assert(fields@.take(i + 1).drop_last() == fields@.take(i as int));
        if text::same(fields[i].0.as_str(), name) {
            proof {
                lemma_lookup_prefix(fields@, name@, i + 1);
            }
            return Some(&fields[i].1);
        }
        i = i + 1;
    }
    assert(fields@.take(fields@.len() as int) == fields@);
    None
}

fn message2(a: &str, b: &str) -> (r: String)
    ensures
        r@ == a@ + b@,
{
    text::concat(a, b)
}

fn message3(a: &str, b: &str, c: &str) -> (r: String)
    ensures
        r@ == a@ + b@ + c@,
{
    let mut m = text::concat(a, b);
    text::push_str(&mut m, c);
    m
}

/// A scalar field as text.
fn field_string(fields: &Vec<(String, Value)>, name: &str) -> (r: Result<String, String>)
    ensures
        match lookup(fields@, name@) {
            None => r matches Err(m) && m@ == "missing field '"@ + name@ + "'"@,
            Some(i) => match fields@[i].1 {
                Value::String(s) => r matches Ok(t) && t@ == s@,
                Value::Integer(n) => r matches Ok(t) && t@ == signed_decimal(n as int),
                Value::Boolean(b) => r matches Ok(t) && t@ == (if b { "true"@ } else { "false"@ }),
                Value::Float(f) => r matches Ok(t) && t@ == f@,
                other => r matches Err(m) && m@ == "field '"@ + name@ + "' must be a scalar string, got "@
                    + debug_of(other),
            },
        },
{
    match get(fields, name) {
        Some(Value::String(value)) => Ok(value.clone()),
        Some(Value::Integer(value)) => Ok(integer_text(*value)),
        Some(Value::Boolean(value)) => if *value {
            Ok(text::owned("true"))
        } else {
            Ok(text::owned("false"))
        },
        Some(Value::Float(value)) => Ok(value.clone()),
        Some(other) => {
            let mut m = message3("field '", name, "' must be a scalar string, got ");
            let d = debug_text(other);
            text::push_str(&mut m, d.as_str());
            Err(m)
        },
        None => Err(message3("missing field '", name, "'")),
    }
}

fn integer_text(n: i64) -> (r: String)
    ensures
        r@ == signed_decimal(n as int),
{
    if n < 0 {
        let magnitude: u64 = (-(n as i128)) as u64;
        let digits = text::u64_to_string(magnitude);
        let mut out = String::new();
        text::push_char(&mut out, '-');
        text::push_str(&mut out, digits.as_str());
        out
    } else {
        text::u64_to_string(n as u64)
    }
}

/// A boolean field, if it is one.
fn bool_option(fields: &Vec<(String, Value)>, name: &str) -> (r: Option<bool>)
    ensures
        r == match lookup(fields@, name@) {
            Some(i) => match fields@[i].1 {
                Value::Boolean(b) => Some(b),
                _ => None::<bool>,
            },
            None => None::<bool>,
        },
{
    match get(fields, name) {
        Some(Value::Boolean(value)) => Some(*value),
        _ => None,
    }
}

/// A boolean field; a missing one is false.
fn bool_field(fields: &Vec<(String, Value)>, name: &str) -> (r: Result<bool, String>)
    ensures
        match lookup(fields@, name@) {
            None => r == Ok::<bool, String>(false),
            Some(i) => match fields@[i].1 {
                Value::Boolean(b) => r == Ok::<bool, String>(b),
                other => r matches Err(m) && m@ == "field '"@ + name@ + "' must be a boolean, got "@
                    + debug_of(other),
            },
        },
{
    match get(fields, name) {
        Some(Value::Boolean(value)) => Ok(*value),
        Some(other) => {
            let mut m = message3("field '", name, "' must be a boolean, got ");
            let d = debug_text(other);
            text::push_str(&mut m, d.as_str());
            Err(m)
        },
        None => Ok(false),
    }
}

/// Whether every value of an array is a string.
pub open spec fn all_strings(vs: Seq<Value>) -> bool {
    forall|i: int| 0 <= i < vs.len() ==> #[trigger] vs[i] is String
}

/// The text of a string value.
pub open spec fn string_view(v: Value) -> Seq<char> {
    match v {
        Value::String(s) => s@,
        _ => Seq::empty(),
    }
}

/// The texts of an array of strings.
pub open spec fn string_views(vs: Seq<Value>) -> Seq<Seq<char>> {
    vs.map_values(|v: Value| string_view(v))
}

fn strings_of(values: &Vec<Value>) -> (r: Option<Vec<String>>)
    ensures
        r is Some <==> all_strings(values@),
        r matches Some(l) ==> l@.len() == values@.len() && forall|i: int|
            0 <= i < l@.len() ==> (#[trigger] l@[i])@ == string_view(values@[i]),
        r matches Some(l) ==> text::views(l@) == string_views(values@),
{
    let mut out: Vec<String> = Vec::new();
    let mut i: usize = 0;
    while i < values.len()
        invariant
            i <= values@.len(),
            out@.len() == i,
            forall|k: int| 0 <= k < i ==> #[trigger] values@[k] is String,
            forall|k: int| 0 <= k < i ==> (#[trigger] out@[k])@ == string_view(values@[k]),
        decreases values@.len() - i,
    {
        match &values[i] {
            Value::String(text_value) => {
                out.push(text_value.clone());
            },
            _ => {
                assert(!(values@[i as int] is String));
                return None;
            },
        }
        i = i + 1;
    }
    assert(text::views(out@) =~= string_views(values@));
    Some(out)
}

/// A list of strings; a missing one is empty.
pub open spec fn strings_field(fields: Seq<(String, Value)>, name: Seq<char>) -> Result<Seq<Seq<char>>, Seq<char>> {
    match lookup(fields, name) {
        None => Ok(Seq::empty()),
        Some(i) => match fields[i].1 {
            Value::Array(vs) => if all_strings(vs@) {
                Ok(string_views(vs@))
            } else {
                Err("field '"@ + name + "' must contain only strings"@)
            },
            _ => Err("field '"@ + name + "' must be an array of strings"@),
        },
    }
}

fn string_list(fields: &Vec<(String, Value)>, name: &str) -> (r: Result<Vec<String>, String>)
    ensures
        match strings_field(fields@, name@) {
            Ok(l) => r matches Ok(x) && text::views(x@) == l,
            Err(m) => r matches Err(x) && x@ == m,
        },
{
    match get(fields, name) {
        Some(Value::Array(values)) => match strings_of(values) {
            Some(l) => Ok(l),
            None => Err(message3("field '", name, "' must contain only strings")),
        },
        Some(_) => Err(message3("field '", name, "' must be an array of strings")),
        None => {
            let empty: Vec<String> = Vec::new();
            assert(text::views(empty@) =~= Seq::<Seq<char>>::empty());
            Ok(empty)
        },
    }
}

/// A scalar field as text.
pub open spec fn scalar_field(fields: Seq<(String, Value)>, name: Seq<char>) -> Result<Seq<char>, Seq<char>> {
    match lookup(fields, name) {
        None => Err("missing field '"@ + name + "'"@),
        Some(i) => match fields[i].1 {
            Value::String(s) => Ok(s@),
            Value::Integer(n) => Ok(signed_decimal(n as int)),
            Value::Boolean(b) => Ok(if b { "true"@ } else { "false"@ }),
            Value::Float(f) => Ok(f@),
            other => Err("field '"@ + name + "' must be a scalar string, got "@ + debug_of(other)),
        },
    }
}

/// Whether every name is the command of some rule.
pub open spec fn all_commands(names: Seq<String>, rules: Seq<CommandRule>) -> bool {
    forall|k: int| 0 <= k < names.len() ==> exists|j: int| 0 <= j < rules.len() && #[trigger] rules[j].command@ == (#[trigger] names[k])@
}

/// A command rule as text: the command, its aliases and whether it needs
/// a project.
pub open spec fn rule_text(r: CommandRule) -> (Seq<char>, Seq<Seq<char>>, bool) {
    (r.command@, text::views(r.aliases@), r.requires_project)
}

/// Command rules as text: the rules, the commands that configure first,
/// and the commands that take a file.
spec fn rules_text(c: CommandRules) -> (Seq<(Seq<char>, Seq<Seq<char>>, bool)>, Seq<Seq<char>>, Seq<Seq<char>>) {
    (c.commands@.map_values(|r: CommandRule| rule_text(r)), text::views(c.requires_initialization@), text::views(c.accepts_files_as_input@))
}

/// A flag of a command's `rules` object; anything but `true` or `false`
/// counts as false.
pub open spec fn flag(fields: Option<Seq<(String, Value)>>, name: Seq<char>) -> bool {
    match fields {
        Some(f) => match lookup(f, name) {
            Some(i) => match f[i].1 {
                Value::Boolean(b) => b,
                _ => false,
            },
            None => false,
        },
        None => false,
    }
}

/// The rules with a command added.
pub open spec fn added(
    acc: (Seq<(Seq<char>, Seq<Seq<char>>, bool)>, Seq<Seq<char>>, Seq<Seq<char>>),
    command: Seq<char>,
    aliases: Seq<Seq<char>>,
    fields: Option<Seq<(String, Value)>>,
) -> (Seq<(Seq<char>, Seq<Seq<char>>, bool)>, Seq<Seq<char>>, Seq<Seq<char>>) {
    (
        acc.0.push((command, aliases, flag(fields, "requires_project"@))),
        if flag(fields, "requires_initialization"@) { acc.1.push(command) } else { acc.1 },
        if flag(fields, "accepts_files_as_input"@) { acc.2.push(command) } else { acc.2 },
    )
}

pub open spec fn fields_view(fields: Option<&Vec<(String, Value)>>) -> Option<Seq<(String, Value)>> {
    match fields {
        Some(f) => Some(f@),
        None => None,
    }
}

/// Adds a command and its flags to the rules being read.
fn add_command(out: &mut CommandRules, command: String, aliases: Vec<String>, fields: Option<&Vec<(String, Value)>>)
    requires
        all_commands(old(out).requires_initialization@, old(out).commands@),
        all_commands(old(out).accepts_files_as_input@, old(out).commands@),
    ensures
        all_commands(final(out).requires_initialization@, final(out).commands@),
        all_commands(final(out).accepts_files_as_input@, final(out).commands@),
        rules_text(*final(out)) == added(rules_text(*old(out)), command@, text::views(aliases@), fields_view(fields)),
{
    proof {
        reveal_strlit("requires_project");
        reveal_strlit("requires_initialization");
        reveal_strlit("accepts_files_as_input");
    }
    let (requires_project, requires_init, accepts_input) = match fields {
        Some(rules) => (
            match bool_option(rules, "requires_project") {
                Some(b) => b,
                None => false,
            },
            match bool_option(rules, "requires_initialization") {
                Some(b) => b,
                None => false,
            },
            match bool_option(rules, "accepts_files_as_input") {
                Some(b) => b,
                None => false,
            },
        ),
        None => (false, false, false),
    };
    assert(requires_project == flag(fields_view(fields), "requires_project"@));
    assert(requires_init == flag(fields_view(fields), "requires_initialization"@));
    assert(accepts_input == flag(fields_view(fields), "accepts_files_as_input"@));
    let ghost start = rules_text(*out);
    let ghost before = out.commands@;
    let ghost alias_text = text::views(aliases@);
    out.commands.push(CommandRule { command: command.clone(), aliases, requires_project });
    assert(out.commands@.map_values(|r: CommandRule| rule_text(r)) =~= start.0.push((command@, alias_text, requires_project)));
    let last = out.commands.len() - 1;
    assert(out.commands@[last as int].command@ == command@);
    assert forall|k: int| 0 <= k < out.requires_initialization@.len() implies exists|j: int|
        0 <= j < out.commands@.len() && #[trigger] out.commands@[j].command@ == (#[trigger] out.requires_initialization@[k])@ by {
        let j = choose|j: int| 0 <= j < before.len() && #[trigger] before[j].command@ == out.requires_initialization@[k]@;
        assert(out.commands@[j] == before[j]);
    }
    assert forall|k: int| 0 <= k < out.accepts_files_as_input@.len() implies exists|j: int|
        0 <= j < out.commands@.len() && #[trigger] out.commands@[j].command@ == (#[trigger] out.accepts_files_as_input@[k])@ by {
        let j = choose|j: int| 0 <= j < before.len() && #[trigger] before[j].command@ == out.accepts_files_as_input@[k]@;
        assert(out.commands@[j] == before[j]);
    }
    if requires_init {
        let ghost prev = out.requires_initialization@;
        out.requires_initialization.push(command.clone());
        assert(out.requires_initialization@.last()@ == command@);
        assert(text::views(out.requires_initialization@) =~= text::views(prev).push(command@));
    }
    if accepts_input {
        let ghost prev = out.accepts_files_as_input@;
        out.accepts_files_as_input.push(command);
        assert(out.accepts_files_as_input@.last()@ == out.commands@[last as int].command@);
        assert(text::views(out.accepts_files_as_input@) =~= text::views(prev).push(command@));
    }
}

/// The `rules` object of a command: missing means no flags.
pub open spec fn flags_field(fields: Seq<(String, Value)>, command: Seq<char>) -> Result<Option<Seq<(String, Value)>>, Seq<char>> {
    match lookup(fields, "rules"@) {
        Some(i) => match fields[i].1 {
            Value::Object(rules) => Ok(Some(rules@)),
            other => Err("command '"@ + command + "' rules must be an object, got "@ + debug_of(other)),
        },
        None => Ok(None),
    }
}

fn command_flags<'a>(fields: &'a Vec<(String, Value)>, command: &str) -> (r: Result<Option<&'a Vec<(String, Value)>>, String>)
    ensures
        match flags_field(fields@, command@) {
            Ok(o) => r matches Ok(x) && fields_view(x) == o,
            Err(m) => r matches Err(x) && x@ == m,
        },
{
    match get(fields, "rules") {
        Some(Value::Object(rules)) => Ok(Some(rules)),
        Some(other) => {
            let mut m = message3("command '", command, "' rules must be an object, got ");
            let d = debug_text(other);
            text::push_str(&mut m, d.as_str());
            Err(m)
        },
        None => Ok(None),
    }
}

/// The aliases of a `command` entry; missing means none.
pub open spec fn entry_aliases(properties: Seq<(String, Value)>, command: Seq<char>) -> Result<Seq<Seq<char>>, Seq<char>> {
    match lookup(properties, "aliases"@) {
        Some(i) => match properties[i].1 {
            Value::Array(vs) => if all_strings(vs@) {
                Ok(string_views(vs@))
            } else {
                Err("command '"@ + command + "' aliases must be strings"@)
            },
            _ => Err("command '"@ + command + "' aliases must be an array"@),
        },
        None => Ok(Seq::empty()),
    }
}

/// Reading a `command` entry of a ruleset (other entries are passed over).
pub open spec fn entry_rule(
    e: crate::noml::Entry,
    acc: (Seq<(Seq<char>, Seq<Seq<char>>, bool)>, Seq<Seq<char>>, Seq<Seq<char>>),
) -> Result<(Seq<(Seq<char>, Seq<Seq<char>>, bool)>, Seq<Seq<char>>, Seq<Seq<char>>), Seq<char>> {
    if e.entry_type@ != "command"@ {
        Ok(acc)
    } else {
        match entry_aliases(e.properties@, e.name@) {
            Err(m) => Err(m),
            Ok(aliases) => match flags_field(e.properties@, e.name@) {
                Err(m) => Err(m),
                Ok(f) => Ok(added(acc, e.name@, aliases, f)),
            },
        }
    }
}

/// Reading the entries of a ruleset from the `i`th on.
pub open spec fn entry_rules(
    es: Seq<crate::noml::Entry>,
    i: int,
    acc: (Seq<(Seq<char>, Seq<Seq<char>>, bool)>, Seq<Seq<char>>, Seq<Seq<char>>),
) -> Result<(Seq<(Seq<char>, Seq<Seq<char>>, bool)>, Seq<Seq<char>>, Seq<Seq<char>>), Seq<char>>
    decreases es.len() - i,
{
    if i < 0 || i >= es.len() {
        Ok(acc)
    } else {
        match entry_rule(es[i], acc) {
            Ok(next) => entry_rules(es, i + 1, next),
            Err(m) => Err(m),
        }
    }
}

/// Reading an object of an array of command rules.
pub open spec fn object_rule(
    v: Value,
    acc: (Seq<(Seq<char>, Seq<Seq<char>>, bool)>, Seq<Seq<char>>, Seq<Seq<char>>),
) -> Result<(Seq<(Seq<char>, Seq<Seq<char>>, bool)>, Seq<Seq<char>>, Seq<Seq<char>>), Seq<char>> {
    match v {
        Value::Object(fields) => match scalar_field(fields@, "command"@) {
            Err(m) => Err(m),
            Ok(command) => match strings_field(fields@, "aliases"@) {
                Err(m) => Err(m),
                Ok(aliases) => match flags_field(fields@, command) {
                    Err(m) => Err(m),
                    Ok(f) => Ok(added(acc, command, aliases, f)),
                },
            },
        },
        _ => Err("invalid base command rules: expected an object entry"@),
    }
}

/// Reading an array of command rules from the `i`th object on.
pub open spec fn object_rules(
    vs: Seq<Value>,
    i: int,
    acc: (Seq<(Seq<char>, Seq<Seq<char>>, bool)>, Seq<Seq<char>>, Seq<Seq<char>>),
) -> Result<(Seq<(Seq<char>, Seq<Seq<char>>, bool)>, Seq<Seq<char>>, Seq<Seq<char>>), Seq<char>>
    decreases vs.len() - i,
{
    if i < 0 || i >= vs.len() {
        Ok(acc)
    } else {
        match object_rule(vs[i], acc) {
            Ok(next) => object_rules(vs, i + 1, next),
            Err(m) => Err(m),
        }
    }
}

/// The command rules that a document holds: a ruleset of `command`
/// entries, or an array of objects with a `command` field.
pub open spec fn document_rules(doc: Value) -> Result<(Seq<(Seq<char>, Seq<Seq<char>>, bool)>, Seq<Seq<char>>, Seq<Seq<char>>), Seq<char>> {
    match doc {
        Value::Ruleset(rs) => entry_rules(rs.entries@, 0, (Seq::empty(), Seq::empty(), Seq::empty())),
        Value::Array(vs) => object_rules(vs@, 0, (Seq::empty(), Seq::empty(), Seq::empty())),
        other => Err("invalid base command rules: expected a ruleset or array, got "@ + debug_of(other)),
    }
}

/// Reads the command rules of a parsed document.
fn rules_of_document(document: &Value) -> (r: Result<CommandRules, String>)
    ensures
        r matches Ok(c) ==> all_commands(c.requires_initialization@, c.commands@) && all_commands(
            c.accepts_files_as_input@,
            c.commands@,
        ),
        match document_rules(*document) {
            Ok(t) => r matches Ok(c) && rules_text(c) == t,
            Err(m) => r matches Err(x) && x@ == m,
        },
{
    proof {
        reveal_strlit("command");
        reveal_strlit("aliases");
    }
    let mut out = CommandRules { commands: Vec::new(), requires_initialization: Vec::new(), accepts_files_as_input: Vec::new() };
    assert(rules_text(out) =~= (Seq::<(Seq<char>, Seq<Seq<char>>, bool)>::empty(), Seq::<Seq<char>>::empty(), Seq::<Seq<char>>::empty()));
    match document {
        Value::Ruleset(ruleset) => {
            let mut i: usize = 0;
            while i < ruleset.entries.len()
                invariant
                    i <= ruleset.entries@.len(),
                    all_commands(out.requires_initialization@, out.commands@),
                    all_commands(out.accepts_files_as_input@, out.commands@),
                    document_rules(*document) == entry_rules(ruleset.entries@, i as int, rules_text(out)),
                decreases ruleset.entries@.len() - i,
            {
                let entry = &ruleset.entries[i];
                if text::same(entry.entry_type.as_str(), "command") {
                    let command = entry.name.clone();
                    let aliases = match get(&entry.properties, "aliases") {
                        Some(Value::Array(values)) => match strings_of(values) {
                            Some(l) => l,
                            None => return Err(message3("command '", command.as_str(), "' aliases must be strings")),
                        },
                        Some(_) => return Err(message3("command '", command.as_str(), "' aliases must be an array")),
                        None => {
                            let empty: Vec<String> = Vec::new();
                            assert(text::views(empty@) =~= Seq::<Seq<char>>::empty());
                            empty
                        },
                    };
                    let flags = command_flags(&entry.properties, command.as_str())?;
                    add_command(&mut out, command, aliases, flags);
                }
                i = i + 1;
            }
            Ok(out)
        },
        Value::Array(entries) => {
            let mut i: usize = 0;
            while i < entries.len()
                invariant
                    i <= entries@.len(),
                    all_commands(out.requires_initialization@, out.commands@),
                    all_commands(out.accepts_files_as_input@, out.commands@),
                    document_rules(*document) == object_rules(entries@, i as int, rules_text(out)),
                decreases entries@.len() - i,
            {
                let fields = match &entries[i] {
                    Value::Object(fields) => fields,
                    _ => return Err(text::owned("invalid base command rules: expected an object entry")),
                };
                let command = field_string(fields, "command")?;
                let aliases = string_list(fields, "aliases")?;
                let flags = command_flags(fields, command.as_str())?;
                add_command(&mut out, command, aliases, flags);
                i = i + 1;
            }
            Ok(out)
        },
        other => {
            let mut m = text::owned("invalid base command rules: expected a ruleset or array, got ");
            let d = debug_text(other);
            text::push_str(&mut m, d.as_str());
            Err(m)
        },
    }
}

/// Reads command rules: a ruleset of `command` entries, or an array of
/// objects with a `command` field. The rules are those that the parsed
/// document holds.
fn parse_commands(contents: &str) -> (r: Result<CommandRules, String>)
    ensures
        r matches Ok(c) ==> all_commands(c.requires_initialization@, c.commands@) && all_commands(
            c.accepts_files_as_input@,
            c.commands@,
        ),
        !crate::noml::closed_comments(contents@) ==> (r matches Err(m) && m@ == "invalid base command rules: unterminated block comment"@),
        crate::noml::closed_comments(contents@) ==> match parsed_document(contents@) {
            Some(vt) => plain(vt) ==> exists|d: Value|
                #[trigger] value_text(d) == vt && match document_rules(d) {
                    Ok(t) => r matches Ok(c) && rules_text(c) == t,
                    Err(m) => r matches Err(x) && x@ == m,
                },
            None => r is Err,
        },
{
    if !comments_closed(contents) {
        return Err(text::owned("invalid base command rules: unterminated block comment"));
    }
    let document = match parse(contents) {
        Ok(d) => d,
        Err(error) => return Err(message2("invalid base command rules: ", error.message.as_str())),
    };
    rules_of_document(&document)
}

/// A flag of an argument rule: a boolean field, `false` when it is absent
/// or not a boolean.
pub open spec fn flag_or_false(fields: Seq<(String, Value)>, name: Seq<char>) -> bool {
    match lookup(fields, name) {
        Some(i) => match fields[i].1 {
            Value::Boolean(b) => b,
            _ => false,
        },
        None => false,
    }
}

/// An argument rule as text: its name and its two flags.
pub open spec fn argument_of(name: Seq<char>, fields: Seq<(String, Value)>) -> (Seq<char>, bool, bool) {
    (name, flag_or_false(fields, "takes_value"@), flag_or_false(fields, "repeatable"@))
}

pub open spec fn arguments_text(args: Seq<ArgumentRule>) -> Seq<(Seq<char>, bool, bool)> {
    args.map_values(|a: ArgumentRule| (a.name@, a.takes_value, a.repeatable))
}

/// The `argument` entries of a ruleset from `i` on, after `acc`.
pub open spec fn entry_arguments(
    es: Seq<crate::noml::Entry>,
    i: int,
    acc: Seq<(Seq<char>, bool, bool)>,
) -> Seq<(Seq<char>, bool, bool)>
    decreases es.len() - i,
{
    if i < 0 || i >= es.len() {
        acc
    } else {
        entry_arguments(es, i + 1, if es[i].entry_type@ == "argument"@ {
            acc.push(argument_of(es[i].name@, es[i].properties@))
        } else {
            acc
        })
    }
}

/// The argument rules of an array of objects from `i` on, after `acc`.
pub open spec fn object_arguments(
    vs: Seq<Value>,
    i: int,
    acc: Seq<(Seq<char>, bool, bool)>,
) -> Result<Seq<(Seq<char>, bool, bool)>, Seq<char>>
    decreases vs.len() - i,
{
    if i < 0 || i >= vs.len() {
        Ok(acc)
    } else {
        match vs[i] {
            Value::Object(fields) => match scalar_field(fields@, "argument"@) {
                Ok(n) => object_arguments(vs, i + 1, acc.push(argument_of(n, fields@))),
                Err(m) => Err(m),
            },
            _ => Err("invalid base argument rules: expected an object entry"@),
        }
    }
}

/// The argument rules that a document holds: a ruleset of `argument`
/// entries, or an array of objects with an `argument` field.
pub open spec fn document_arguments(doc: Value) -> Result<Seq<(Seq<char>, bool, bool)>, Seq<char>> {
    match doc {
        Value::Ruleset(rs) => Ok(entry_arguments(rs.entries@, 0, Seq::empty())),
        Value::Array(vs) => object_arguments(vs@, 0, Seq::empty()),
        other => Err("invalid base argument rules: expected a ruleset or array, got "@ + debug_of(other)),
    }
}

/// Reads the argument rules of a parsed document.
fn arguments_of_document(document: &Value) -> (r: Result<Vec<ArgumentRule>, String>)
    ensures
        match document_arguments(*document) {
            Ok(t) => r matches Ok(a) && arguments_text(a@) == t,
            Err(m) => r matches Err(x) && x@ == m,
        },
{
    proof {
        reveal_strlit("argument");
        reveal_strlit("takes_value");
        reveal_strlit("repeatable");
    }
    let mut arguments: Vec<ArgumentRule> = Vec::new();
    assert(arguments_text(arguments@) =~= Seq::<(Seq<char>, bool, bool)>::empty());
    match document {
        Value::Ruleset(ruleset) => {
            let mut i: usize = 0;
            while i < ruleset.entries.len()
                invariant
                    i <= ruleset.entries@.len(),
                    entry_arguments(ruleset.entries@, i as int, arguments_text(arguments@))
                        == entry_arguments(ruleset.entries@, 0, Seq::empty()),
                decreases ruleset.entries@.len() - i,
            {
                let entry = &ruleset.entries[i];
                if text::same(entry.entry_type.as_str(), "argument") {
                    let takes_value = match bool_field(&entry.properties, "takes_value") {
                        Ok(b) => b,
                        Err(_) => false,
                    };
                    let repeatable = match bool_field(&entry.properties, "repeatable") {
                        Ok(b) => b,
                        Err(_) => false,
                    };
                    let ghost before = arguments@;
                    let rule = ArgumentRule { name: entry.name.clone(), takes_value, repeatable };
                    arguments.push(rule);
                    assert(arguments_text(arguments@) =~= arguments_text(before).push(
                        argument_of(entry.name@, entry.properties@),
                    ));
                }
                i = i + 1;
            }
            Ok(arguments)
        },
        Value::Array(entries) => {
            let mut i: usize = 0;
            while i < entries.len()
                invariant
                    i <= entries@.len(),
                    *document == Value::Array(*entries),
                    object_arguments(entries@, i as int, arguments_text(arguments@))
                        == object_arguments(entries@, 0, Seq::empty()),
                decreases entries@.len() - i,
            {
                let fields = match &entries[i] {
                    Value::Object(fields) => fields,
                    _ => return Err(text::owned("invalid base argument rules: expected an object entry")),
                };
                let name = field_string(fields, "argument")?;
                let takes_value = match bool_field(fields, "takes_value") {
                    Ok(b) => b,
                    Err(_) => false,
                };
                let repeatable = match bool_field(fields, "repeatable") {
                    Ok(b) => b,
                    Err(_) => false,
                };
                let ghost before = arguments@;
                let ghost n = name@;
                arguments.push(ArgumentRule { name, takes_value, repeatable });
                assert(arguments_text(arguments@) =~= arguments_text(before).push(argument_of(n, fields@)));
                i = i + 1;
            }
            Ok(arguments)
        },
        other => {
            let mut m = text::owned("invalid base argument rules: expected a ruleset or array, got ");
            let d = debug_text(other);
            text::push_str(&mut m, d.as_str());
            Err(m)
        },
    }
}

/// Reads argument rules: a ruleset of `argument` entries, or an array of
/// objects with an `argument` field. The rules are those that the parsed
/// document holds.
fn parse_arguments(contents: &str) -> (r: Result<Vec<ArgumentRule>, String>)
    ensures
        !crate::noml::closed_comments(contents@) ==> (r matches Err(m) && m@ == "invalid base argument rules: unterminated block comment"@),
        crate::noml::closed_comments(contents@) ==> match parsed_document(contents@) {
            Some(vt) => plain(vt) ==> exists|d: Value|
                #[trigger] value_text(d) == vt && match document_arguments(d) {
                    Ok(t) => r matches Ok(a) && arguments_text(a@) == t,
                    Err(m) => r matches Err(x) && x@ == m,
                },
            None => r is Err,
        },
{
    if !comments_closed(contents) {
        return Err(text::owned("invalid base argument rules: unterminated block comment"));
    }
    let document = match parse(contents) {
        Ok(d) => d,
        Err(error) => return Err(message2("invalid base argument rules: ", error.message.as_str())),
    };
    arguments_of_document(&document)
}

/// The command rules of the command line.
pub const COMMAND_RULES: &'static str = "ruleset \"commands\" {
    command: help {
        description: [\"Show general help or detailed help for one command.\"]
        aliases: []
        rules: { requires_project: false, requires_initialization: false, accepts_files_as_input: false }
    },
    command: setup {
        description: [\"Parse and validate nox.build, detect toolchains, and write build state.\"]
        aliases: [configure]
        rules: { requires_project: true, requires_initialization: false, accepts_files_as_input: false }
    },
    command: build {
        description: [\"Compile and link configured targets.\"]
        aliases: [compile, b]
        rules: { requires_project: true, requires_initialization: true, accepts_files_as_input: false }
    },
    command: rebuild {
        description: [\"Reconfigure and compile from scratch.\"]
        aliases: []
        rules: { requires_project: true, requires_initialization: false, accepts_files_as_input: false }
    },
    command: clean {
        description: [\"Remove generated build artifacts.\"]
        aliases: []
        rules: { requires_project: true, requires_initialization: false, accepts_files_as_input: false }
    },
    command: install {
        description: [\"Build and install marked targets.\"]
        aliases: [i]
        rules: { requires_project: true, requires_initialization: false, accepts_files_as_input: false }
    },
    command: uninstall {
        description: [\"Remove installed targets.\"]
        aliases: []
        rules: { requires_project: true, requires_initialization: false, accepts_files_as_input: false }
    },
    command: validate {
        description: [\"Check nox.build and dependencies.\"]
        aliases: []
        rules: { requires_project: true, requires_initialization: false, accepts_files_as_input: false }
    },
    command: status {
        description: [\"Show configuration and toolchains.\"]
        aliases: [stat]
        rules: { requires_project: true, requires_initialization: false, accepts_files_as_input: false }
    },
    command: doctor {
        description: [\"Diagnose the project, build directory and toolchains.\"]
        aliases: [doc]
        rules: { requires_project: true, requires_initialization: false, accepts_files_as_input: false }
    },
    command: env {
        description: [\"Print the extra environment of the project.\"]
        aliases: []
        rules: { requires_project: true, requires_initialization: false, accepts_files_as_input: false }
    },
    command: riders {
        description: [\"List supported language backends.\"]
        aliases: []
        rules: { requires_project: false, requires_initialization: false, accepts_files_as_input: false }
    },
    command: targets {
        description: [\"List declared targets.\"]
        aliases: [list]
        rules: { requires_project: true, requires_initialization: false, accepts_files_as_input: false }
    },
    command: graph {
        description: [\"Show dependency order.\"]
        aliases: []
        rules: { requires_project: true, requires_initialization: false, accepts_files_as_input: false }
    },
    command: run {
        description: [\"Compile and run a target or a source file.\"]
        aliases: [r]
        rules: { requires_project: true, requires_initialization: true, accepts_files_as_input: true }
    },
    command: test {
        description: [\"Run the noxfile test task.\"]
        aliases: []
        rules: { requires_project: true, requires_initialization: false, accepts_files_as_input: false }
    },
    command: task {
        description: [\"Run a named noxfile task.\"]
        aliases: []
        rules: { requires_project: true, requires_initialization: false, accepts_files_as_input: false }
    },
    command: tasks {
        description: [\"List the noxfile tasks.\"]
        aliases: []
        rules: { requires_project: true, requires_initialization: false, accepts_files_as_input: false }
    },
    command: version {
        description: [\"Print the Nox version.\"]
        aliases: []
        rules: { requires_project: false, requires_initialization: false, accepts_files_as_input: false }
    },
    command: bump-version {
        description: [\"Bump or set the project version.\"]
        aliases: [bump]
        rules: { requires_project: true, requires_initialization: false, accepts_files_as_input: false }
    },
    command: init {
        description: [\"Analyze and initialize a project.\"]
        aliases: []
        rules: { requires_project: false, requires_initialization: false, accepts_files_as_input: false }
    },
    command: update {
        description: [\"Update the installed Nox.\"]
        aliases: []
        rules: { requires_project: false, requires_initialization: false, accepts_files_as_input: false }
    },
    command: nomlfmt {
        description: [\"Format NOML files.\"]
        aliases: []
        rules: { requires_project: false, requires_initialization: false, accepts_files_as_input: false }
    }
}
";

fn command_rules_text() -> (r: &'static str)
    ensures
        r@ == COMMAND_RULES@,
{
    COMMAND_RULES
}

/// The argument rules of the command line.
pub const ARGUMENT_RULES: &'static str = "ruleset \"arguments\" {
    argument: \"--help\" { takes_value: false, repeatable: false },
    argument: \"-h\" { takes_value: false, repeatable: false },
    argument: \"--version\" { takes_value: false, repeatable: false },
    argument: \"-v\" { takes_value: false, repeatable: false },
    argument: \"-V\" { takes_value: false, repeatable: false },
    argument: \"--build-dir\" { takes_value: true, repeatable: false },
    argument: \"-C\" { takes_value: true, repeatable: false },
    argument: \"-j\" { takes_value: true, repeatable: false },
    argument: \"--release\" { takes_value: false, repeatable: false },
    argument: \"--debug\" { takes_value: false, repeatable: false },
    argument: \"--compile-flag\" { takes_value: true, repeatable: true },
    argument: \"--reconfigure\" { takes_value: false, repeatable: false },
    argument: \"--prefix\" { takes_value: true, repeatable: false },
    argument: \"--name\" { takes_value: true, repeatable: false },
    argument: \"--language\" { takes_value: true, repeatable: false },
    argument: \"--type\" { takes_value: true, repeatable: false },
    argument: \"--template\" { takes_value: true, repeatable: false },
    argument: \"--no-noxfile\" { takes_value: false, repeatable: false },
    argument: \"--no-nix\" { takes_value: false, repeatable: false },
    argument: \"--formatter\" { takes_value: false, repeatable: false },
    argument: \"--dev\" { takes_value: false, repeatable: false },
    argument: \"--channel\" { takes_value: true, repeatable: false }
}
";

fn argument_rules_text() -> (r: &'static str)
    ensures
        r@ == ARGUMENT_RULES@,
{
    ARGUMENT_RULES
}

} // verus!
