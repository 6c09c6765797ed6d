//! Helper to read what external commands report.
use crate::error::CoreError;
use crate::text::chars_of;
use crate::text::split;
use crate::text::split_at_each;
use crate::text::text_of;
use crate::text::views;
use std::borrow::Cow;
use vstd::prelude::*;
use vstd::string::StringSliceAdditionalSpecFns;
use vstd::utf8::decode_utf8;
use vstd::utf8::valid_utf8;

verus! {

/// `std::str::from_utf8`: the bytes as text where they are valid UTF-8,
/// nothing where they are not.
#[verifier::external_body]
pub(crate) fn text_from_utf8(bytes: &[u8]) -> (text: Option<&str>)
    ensures
        match text {
            Some(decoded) => valid_utf8(bytes@) && decoded.spec_bytes() == bytes@,
            None => !valid_utf8(bytes@),
        },
{
    std::str::from_utf8(bytes).ok()
}

/// What a finished run of a command left behind.
#[derive(Debug)]
pub struct Output {
    /// Whether the command exited with status zero.
    pub success: bool,
    /// What it printed to stdout.
    pub stdout: Vec<u8>,
}

/// A command wrapper that simplifies interaction with external commands.
#[derive(Debug)]
pub struct Command<'a> {
    name: Cow<'a, str>,
}

/// The strings of a list, as texts.
pub open spec fn texts(lines: Seq<String>) -> Seq<Seq<char>> {
    lines.map_values(|line: String| line@)
}

impl<'a> Command<'a> {
    /// The name of the command, as it is held.
    pub closed spec fn held(&self) -> Cow<'a, str> {
        self.name
    }

    /// The name of the command.
    pub open spec fn name(&self) -> Seq<char> {
        self.held()@
    }

    /// Construct a new command wrapper.
    pub fn new<N: Into<Cow<'a, str>>>(name: N) -> (command: Command<'a>)
        ensures
            call_ensures(N::into, (name,), command.held()),
    {
        Command { name: name.into() }
    }

    /// The name of the command, to run it by.
    pub fn program(&self) -> (name: &str)
        ensures
            name@ == self.name(),
    {
        match &self.name {
            Cow::Borrowed(borrowed) => borrowed,
            Cow::Owned(owned) => owned.as_str(),
        }
    }

    /// Reads the outcome of a run of this command: all lines printed to
    /// stdout on success. A run that failed, or whose output is not valid
    /// UTF-8, is an error.
    pub fn run_lines(&self, output: &Output) -> (outcome: Result<Vec<String>, CoreError>)
        ensures
            if output.success && valid_utf8(output.stdout@) {
                outcome matches Ok(lines) && texts(lines@) == split(
                    decode_utf8(output.stdout@),
                    '\n',
                )
            } else {
                outcome matches Err(CoreError::CommandExecution { message }) && message@ == (
                if output.success {
                    "Command output is not valid UTF-8"@
                } else {
                    "Command exited with non-zero status"@
                })
            },
    {
        if !output.success {
            return Err(
                CoreError::CommandExecution {
                    message: "Command exited with non-zero status".to_owned(),
                },
            );
        }
        let text = match text_from_utf8(output.stdout.as_slice()) {
            Some(text) => text,
            None => {
                return Err(
                    CoreError::CommandExecution {
                        message: "Command output is not valid UTF-8".to_owned(),
                    },
                );
            },
        };
        proof {
            vstd::utf8::encode_utf8_decode_utf8(text@);
        }
        let chars = chars_of(text);
        let pieces = split_at_each(&chars, '\n');
        let mut lines: Vec<String> = Vec::new();
        let n: usize = pieces.len();
        let mut i: usize = 0;
        while i < n
            invariant
                i <= n,
                n == pieces@.len(),
                texts(lines@) == views(pieces@).subrange(0, i as int),
            decreases n - i,
        {
            let line = text_of(&pieces[i]);
            let ghost before = lines@;
            lines.push(line);
            assert(texts(lines@) =~= texts(before).push(line@));
            assert(views(pieces@).subrange(0, i + 1) =~= views(pieces@).subrange(
                0,
                i as int,
            ).push(pieces@[i as int]@));
            i += 1;
        }
        assert(views(pieces@).subrange(0, n as int) =~= views(pieces@));
        Ok(lines)
    }
}

} // verus!
