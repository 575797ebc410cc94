//! The first sketch of the transpiler: a character scanner, and a generator
//! that keeps every variable in memory.
use vstd::prelude::*;
use crate::scope::StrMap;
use crate::text::{append_u64, append_u128, str_chars, copy_string};
use crate::u256::{nat_to_dec};

verus! {

/// Whether `s` starts with one of the scanned markers, `$` or `#`.
pub open spec fn starts_with_marker(s: Seq<char>) -> bool {
    s.len() > 0 && (s[0] == '$' || s[0] == '#')
}

/// The whole string when its first character is `$` or `#`; `None` otherwise.
pub fn parse_value(string: &str) -> (res: Option<&str>)
    ensures
        res is Some <==> starts_with_marker(string@),
        res matches Some(r) ==> r@ == string@,
{
    let mut scanner = Scanner::new(string);
    let marker = |character: &char| -> (r: Option<bool>)
        ensures
            r is Some <==> (*character == '$' || *character == '#'),
        {
            if *character == '$' || *character == '#' {
                Some(true)
            } else {
                None
            }
        };
    match scanner.transform(marker) {
        Some(_) => Some(string),
        None => None,
    }
}

/// Reads characters one at a time.
pub struct Scanner {
    cursor: usize,
    characters: Vec<char>,
}

impl Scanner {
    /// The position of the next character.
    pub closed spec fn position(&self) -> nat {
        self.cursor as nat
    }

    /// The characters scanned.
    pub closed spec fn text(&self) -> Seq<char> {
        self.characters@
    }

    /// A scanner at the first character of `string`.
    pub fn new(string: &str) -> (r: Self)
        ensures
            r.position() == 0,
            r.text() == string@,
    {
        Self { cursor: 0, characters: str_chars(string) }
    }

    /// Invokes `cb` on the next character, if there is one. If it returns a
    /// value, the value is returned and the cursor advances; otherwise `None`
    /// is returned and the cursor stays.
    pub fn transform<T, F: FnOnce(&char) -> Option<T>>(&mut self, cb: F) -> (res: Option<T>)
        requires
            old(self).position() < old(self).text().len() ==> call_requires(
                cb,
                (&old(self).text()[old(self).position() as int],),
            ),
        ensures
            final(self).text() == old(self).text(),
            old(self).position() >= old(self).text().len() ==> res is None,
            old(self).position() < old(self).text().len() ==> call_ensures(
                cb,
                (&old(self).text()[old(self).position() as int],),
                res,
            ),
            res is Some ==> final(self).position() == old(self).position() + 1,
            res is None ==> final(self).position() == old(self).position(),
    {
        if self.cursor < self.characters.len() {
            let input = &self.characters[self.cursor];
            match cb(input) {
                Some(output) => {
                    self.cursor = self.cursor + 1;
                    Some(output)
                },
                None => None,
            }
        } else {
            None
        }
    }
}

/// Where the sketch keeps variables: one memory address each.
pub struct Context {
    pub variables: StrMap<u32>,
    pub next_open_memory_address: u32,
}

/// The operations the sketch knows.
pub enum YulOp {
    Add(OpAdd),
    DeclareVariable(OpDeclareVariable),
}

/// `let identifier := value`
pub struct OpDeclareVariable {
    pub identifier: String,
    pub value: u128,
}

/// `add(first, second)` of two variables.
pub struct OpAdd {
    pub first_var: String,
    pub second_var: String,
}

/// Appends a line to the program.
pub fn add_line(program: &mut String, line: &str)
    ensures
        final(program)@ == old(program)@ + seq!['\n'] + line@,
{
    crate::text::push_char(program, '\n');
    program.append(line);
}

/// Gives the variable the next memory address and stores its value there.
pub fn declare_var(program: &mut String, op: &OpDeclareVariable, context: &mut Context)
    requires
        old(context).next_open_memory_address < u32::MAX,
    ensures
        final(context).next_open_memory_address == old(context).next_open_memory_address + 1,
        final(context).variables@ == old(context).variables@.insert(
            op.identifier@,
            old(context).next_open_memory_address,
        ),
        final(program)@ == old(program)@ + seq!['\n'] + "push."@ + nat_to_dec(op.value as nat) + seq!['\n']
            + "mem.store."@ + nat_to_dec(old(context).next_open_memory_address as nat),
{
    let address = context.next_open_memory_address;
    context.next_open_memory_address = context.next_open_memory_address + 1;
    context.variables.insert(copy_string(&op.identifier), address);
    let mut line = String::new();
    line.append("push.");
    append_u128(&mut line, op.value);
    self::add_line(program, line.as_str());
    let mut line2 = String::new();
    line2.append("mem.store.");
    append_u64(&mut line2, address as u64);
    self::add_line(program, line2.as_str());
    proof {
        assert(line@ =~= "push."@ + nat_to_dec(op.value as nat));
        assert(line2@ =~= "mem.store."@ + nat_to_dec(address as nat));
    }
}

/// Loads the two variables from memory and adds them.
pub fn add(program: &mut String, op: &OpAdd, context: &mut Context)
    requires
        old(context).variables@.contains_key(op.first_var@),
        old(context).variables@.contains_key(op.second_var@),
    ensures
        final(context).variables@ == old(context).variables@,
        final(context).next_open_memory_address == old(context).next_open_memory_address,
        final(program)@ == old(program)@ + seq!['\n'] + "mem.load."@ + nat_to_dec(
            old(context).variables@[op.first_var@] as nat,
        ) + seq!['\n'] + "mem.load."@ + nat_to_dec(old(context).variables@[op.second_var@] as nat)
            + seq!['\n'] + "add"@,
{
    let ghost p0 = program@;
    let first = *context.variables.get(op.first_var.as_str()).unwrap();
    let mut line = String::new();
    line.append("mem.load.");
    append_u64(&mut line, first as u64);
    self::add_line(program, line.as_str());
    let second = *context.variables.get(op.second_var.as_str()).unwrap();
    let mut line2 = String::new();
    line2.append("mem.load.");
    append_u64(&mut line2, second as u64);
    self::add_line(program, line2.as_str());
    self::add_line(program, "add");
    proof {
        assert(line@ =~= "mem.load."@ + nat_to_dec(first as nat));
        assert(line2@ =~= "mem.load."@ + nat_to_dec(second as nat));
        assert(program@ =~= p0 + seq!['\n'] + line@ + seq!['\n'] + line2@ + seq!['\n'] + "add"@);
    }
}

} // verus!
