//! How the worker threads of a pool are named and how large their stacks are.

use vstd::prelude::*;
use vstd::string::StringExecFns;

verus! {

/// `String::from` on a string slice: the new string holds the characters of the slice.
pub assume_specification<'a>[ <String as From<&'a str>>::from ](s: &str) -> (res: String)
    ensures
        res@ == s@,
;

/// `From::from` of a type into itself: the value is handed back unchanged. This is the conversion
/// behind `Into::into` when [`ThreadConfig::prefix`] is given an owned string.
pub assume_specification<Same>[ <Same as std::convert::From<Same>>::from ](value: Same) -> (res:
    Same)
    ensures
        res == value,
;

/// The decimal digit for `d`, which is below ten.
pub open spec fn digit(d: nat) -> char {
    if d == 0 {
        '0'
    } else if d == 1 {
        '1'
    } else if d == 2 {
        '2'
    } else if d == 3 {
        '3'
    } else if d == 4 {
        '4'
    } else if d == 5 {
        '5'
    } else if d == 6 {
        '6'
    } else if d == 7 {
        '7'
    } else if d == 8 {
        '8'
    } else {
        '9'
    }
}

/// A number in decimal notation, without leading zeros.
pub open spec fn decimal(n: nat) -> Seq<char>
    decreases n,
{
    if n < 10 {
        seq![digit(n)]
    } else {
        decimal(n / 10).push(digit(n % 10))
    }
}

/// The name of the worker thread with the given number: `<prefix>-<number>`, where the prefix is
/// `worker-thread` unless another one is configured.
pub open spec fn worker_name_spec(prefix: Option<Seq<char>>, number: nat) -> Seq<char> {
    let prefix = match prefix {
        Some(prefix) => prefix,
        None => "worker-thread"@,
    };
    prefix + "-"@ + decimal(number)
}

/// The one-character string for a decimal digit.
fn digit_str(d: usize) -> (s: &'static str)
    requires
        d < 10,
    ensures
        s@ == seq![digit(d as nat)],
{
    proof {
        reveal_strlit("0");
        reveal_strlit("1");
        reveal_strlit("2");
        reveal_strlit("3");
        reveal_strlit("4");
        reveal_strlit("5");
        reveal_strlit("6");
        reveal_strlit("7");
        reveal_strlit("8");
        reveal_strlit("9");
    }
    match d {
        0 => "0",
        1 => "1",
        2 => "2",
        3 => "3",
        4 => "4",
        5 => "5",
        6 => "6",
        7 => "7",
        8 => "8",
        _ => "9",
    }
}

/// Appends a number in decimal notation to a string.
fn push_decimal(out: &mut String, n: usize)
    ensures
        final(out)@ == old(out)@ + decimal(n as nat),
    decreases n,
{
    if n >= 10 {
        push_decimal(out, n / 10);
    }
    out.append(digit_str(n % 10));
}

/// What a [`ThreadConfig`] holds.
pub struct ConfigState {
    pub prefix: Option<Seq<char>>,
    pub stack_size: Option<usize>,
}

impl ConfigState {
    /// Without any setting.
    pub open spec fn empty() -> ConfigState {
        ConfigState { prefix: None, stack_size: None }
    }

    /// With this prefix for names.
    pub open spec fn with_prefix(self, prefix: Seq<char>) -> ConfigState {
        ConfigState { prefix: Some(prefix), ..self }
    }

    /// With this stack size.
    pub open spec fn with_stack_size(self, stack_size: usize) -> ConfigState {
        ConfigState { stack_size: Some(stack_size), ..self }
    }
}

/// Provide configuration parameters to the spawned threads like a name prefix.
pub struct ThreadConfig {
    prefix: Option<String>,
    stack_size: Option<usize>,
}

impl View for ThreadConfig {
    type V = ConfigState;

    closed spec fn view(&self) -> ConfigState {
        ConfigState {
            prefix: match self.prefix {
                Some(prefix) => Some(prefix@),
                None => None,
            },
            stack_size: self.stack_size,
        }
    }
}

impl Default for ThreadConfig {
    fn default() -> (config: Self)
        ensures
            config@ == ConfigState::empty(),
            config@.prefix is None,
            config@.stack_size is None,
    {
        Self::new()
    }
}

impl ThreadConfig {
    /// Create an empty `ThreadConfig` which can be used to configure thread spawning using its
    /// builder like methods.
    pub fn new() -> (config: Self)
        ensures
            config@ == ConfigState::empty(),
            config@.prefix is None,
            config@.stack_size is None,
    {
        Self { prefix: None, stack_size: None }
    }

    /// Set a common prefix for the worker thread names.
    ///
    /// The full name is composed like this:
    /// ```ignore
    /// <prefix>-<id>
    /// ```
    ///
    /// The default `prefix` is "worker-thread".
    pub fn prefix<P: Into<String>>(self, prefix: P) -> (config: Self)
        ensures
            exists|name: String|
                #[trigger] call_ensures(P::into, (prefix,), name) && config@
                    == self@.with_prefix(name@) && config@.prefix == Some(name@),
            config@.stack_size == self@.stack_size,
    {
        Self { prefix: Some(prefix.into()), ..self }
    }

    /// Set that size of the stack of each spawned thread.
    pub fn stack_size(self, stack_size: usize) -> (config: Self)
        ensures
            config@ == self@.with_stack_size(stack_size),
            config@.stack_size == Some(stack_size),
            config@.prefix == self@.prefix,
    {
        Self { stack_size: Some(stack_size), ..self }
    }

    /// The name of the worker thread with the given number.
    pub fn worker_name(&self, number: usize) -> (name: String)
        ensures
            name@ == worker_name_spec(self@.prefix, number as nat),
    {
        let mut name = match &self.prefix {
            Some(prefix) => prefix.clone(),
            None => String::from("worker-thread"),
        };
        name.append("-");
        push_decimal(&mut name, number);
        name
    }

    /// The stack size to spawn each worker thread with, if one is set.
    pub fn worker_stack_size(&self) -> (stack_size: Option<usize>)
        ensures
            stack_size == self@.stack_size,
    {
        self.stack_size
    }
}

} // verus!
