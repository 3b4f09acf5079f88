//! Named pipes.

use crate::text::{begins, behind, hexadecimal, write_hexadecimal};
use vstd::prelude::*;
use vstd::string::{StrSliceExecFns, StringExecFns};

verus! {

/// What the path of a local pipe begins with.
pub const PIPE_PREFIX: &'static str = "\\\\.\\pipe\\";

/// `text` without leading backslashes.
pub open spec fn without_backslashes(text: Seq<char>) -> Seq<char>
    decreases text.len(),
{
    if text.len() > 0 && text[0] == '\\' {
        without_backslashes(text.drop_first())
    } else {
        text
    }
}

/// The path of the pipe that `text` names, with or without the prefix.
pub open spec fn pipe_path(text: Seq<char>) -> Seq<char> {
    if begins(text, PIPE_PREFIX@) {
        text
    } else {
        PIPE_PREFIX@ + without_backslashes(text)
    }
}

/// The path of a local named pipe.
#[derive(Debug)]
pub struct NamedPipePath(String);

impl View for NamedPipePath {
    type V = Seq<char>;

    closed spec fn view(&self) -> Seq<char> {
        self.0@
    }
}

impl Clone for NamedPipePath {
    fn clone(&self) -> (pipe: Self)
        ensures
            pipe@ == self@,
    {
        NamedPipePath(self.0.clone())
    }
}

fn trim_backslashes(text: &str) -> (trimmed: &str)
    ensures
        trimmed@ == without_backslashes(text@),
{
    let size: usize = text.unicode_len();
    let mut at: usize = 0;
    assert(text@.skip(0) =~= text@);
    for character in iter: text.chars()
        invariant
            at == iter.index() <= size,
            size == text@.len(),
            iter.seq() == text@,
            without_backslashes(text@.skip(at as int)) == without_backslashes(text@),
    {
        if character != '\\' {
            let trimmed = text.substring_char(at, size);
            assert(trimmed@ =~= text@.skip(at as int));
            return trimmed;
        }
        proof {
            assert(text@.skip(at as int).drop_first() =~= text@.skip(at + 1));
        }
        at = at + 1;
    }
    let trimmed = text.substring_char(at, size);
    assert(trimmed@ =~= text@.skip(at as int));
    trimmed
}

impl NamedPipePath {
    /// The path of the pipe that `path` names, with or without the prefix.
    pub fn new(path: String) -> (pipe: Self)
        ensures
            pipe@ == pipe_path(path@),
    {
        match behind(path.as_str(), PIPE_PREFIX) {
            Some(_) => NamedPipePath(path),
            None => NamedPipePath(
                PIPE_PREFIX.to_owned().concat(trim_backslashes(path.as_str())),
            ),
        }
    }

    /// The path.
    pub fn as_str(&self) -> (path: &str)
        ensures
            path@ == self@,
    {
        self.0.as_str()
    }
}

/// A pipe path is under the prefix, and naming a pipe by its path gives that path again.
pub proof fn law_pipe_path_is_stable(text: Seq<char>)
    ensures
        begins(pipe_path(text), PIPE_PREFIX@),
        pipe_path(pipe_path(text)) == pipe_path(text),
{
    assert(pipe_path(text).take(PIPE_PREFIX@.len() as int) =~= PIPE_PREFIX@);
}

/// Backslashes in front of a name that is no path make no difference.
pub proof fn law_leading_backslashes_are_ignored(text: Seq<char>)
    requires
        !begins(text, PIPE_PREFIX@),
        !begins(seq!['\\'] + text, PIPE_PREFIX@),
    ensures
        pipe_path(seq!['\\'] + text) == pipe_path(text),
{
    assert((seq!['\\'] + text).drop_first() =~= text);
}

/// What a pipe instance is created with.
#[derive(Debug, Clone, Copy, PartialEq, Eq, Structural)]
pub struct PipeOptions {
    /// Fail where the pipe exists already.
    pub first_pipe_instance: bool,
    /// Ask for the right to replace the access list.
    pub write_dac: bool,
    /// Ask for the right to lower the integrity label.
    pub write_owner: bool,
    /// Set the security descriptor of the pipe.
    pub apply_security: bool,
}

/// What a pipe instance is created with.
///
/// Only the first instance carries the security work. The descriptor belongs to the pipe, not to
/// an instance, and asking for the rights to change it when a further instance is opened would be
/// checked against the existing pipe and denied.
pub fn instance_options(first_instance: bool) -> (options: PipeOptions)
    ensures
        options.first_pipe_instance == first_instance,
        options.write_dac == first_instance,
        options.write_owner == first_instance,
        options.apply_security == first_instance,
{
    PipeOptions {
        first_pipe_instance: first_instance,
        write_dac: first_instance,
        write_owner: first_instance,
        apply_security: first_instance,
    }
}

/// The rights on a file that reading it takes.
pub const FILE_GENERIC_READ: u32 = 0x12_0089;

/// The rights on a file that writing it takes.
pub const FILE_GENERIC_WRITE: u32 = 0x12_0116;

/// The right to open another instance of a pipe. On a file it is the right to append, so the
/// rights that writing a file takes hold it.
pub const FILE_CREATE_PIPE_INSTANCE: u32 = 0x4;

/// The rights that a client needs and asks for: to read and to write, but not to open another
/// instance of the pipe.
pub const PIPE_CLIENT_RIGHTS: u32 = 0x12_019b;

/// A client may do all that reading and writing take, except to open another instance of the pipe:
/// that would let any local user receive connections that are meant for the server.
pub proof fn law_clients_cannot_open_an_instance()
    ensures
        PIPE_CLIENT_RIGHTS == (FILE_GENERIC_READ | FILE_GENERIC_WRITE)
            & !FILE_CREATE_PIPE_INSTANCE,
        PIPE_CLIENT_RIGHTS & FILE_CREATE_PIPE_INSTANCE == 0,
        FILE_GENERIC_WRITE & FILE_CREATE_PIPE_INSTANCE == FILE_CREATE_PIPE_INSTANCE,
{
    assert(0x12_019bu32 == (0x12_0089u32 | 0x12_0116u32) & !0x4u32) by (bit_vector);
    assert(0x12_019bu32 & 0x4u32 == 0) by (bit_vector);
    assert(0x12_0116u32 & 0x4u32 == 0x4) by (bit_vector);
}

/// The security descriptor of a pipe, for a server that runs as the account `sid`.
///
/// System, administrators and the server's own account get full control; authenticated users get
/// [`PIPE_CLIENT_RIGHTS`] and nothing more. They are written as a number, since the shorthands for
/// reading and writing a file would also grant the right to open another instance of the pipe. The
/// medium integrity label lets a normal desktop application connect to an elevated server.
///
/// This moves the security boundary onto the handshake, which is why a server that exposes
/// anything privileged should not go by the version alone.
pub fn pipe_sddl(sid: &str) -> (sddl: String)
    ensures
        sddl@ == "D:(A;;FA;;;SY)(A;;FA;;;BA)(A;;FA;;;"@ + sid@ + ")(A;;0x"@ + hexadecimal(
            PIPE_CLIENT_RIGHTS as nat,
            6,
        ) + ";;;AU)S:(ML;;NW;;;ME)"@,
{
    "D:(A;;FA;;;SY)(A;;FA;;;BA)(A;;FA;;;".to_owned().concat(sid).concat(")(A;;0x").concat(
        write_hexadecimal(PIPE_CLIENT_RIGHTS as u64, 6).as_str(),
    ).concat(";;;AU)S:(ML;;NW;;;ME)")
}

/// The size of the buffer for the account that a process runs as, given what was reported. There
/// always is an account, so nothing is no answer.
pub fn token_user_size(reported: u32) -> (size: Result<usize, &'static str>)
    ensures
        match size {
            Ok(size) => reported > 0 && size == reported,
            Err(reason) => reported == 0 && reason@ == "token user information reported zero size"@,
        },
{
    if reported == 0 {
        Err("token user information reported zero size")
    } else {
        Ok(reported as usize)
    }
}

/// A step in setting the security descriptor of a pipe.
#[derive(Debug, Clone, Copy, PartialEq, Eq, Structural)]
pub enum SecurityStep {
    /// Make a descriptor of the text of [`pipe_sddl`].
    Parse,
    /// Find the access list in the descriptor.
    ReadDacl,
    /// Find the integrity label in the descriptor.
    ReadLabel,
    /// Set the access list of the pipe.
    SetDacl,
    /// Set the integrity label of the pipe.
    SetLabel,
}

/// What to do next in setting the security descriptor of a pipe.
pub enum SecurityAction {
    /// Take this step and report how it went.
    Take(SecurityStep),
    /// Free the descriptor; this is how it all went.
    Free(Result<(), String>),
    /// There is no descriptor to free, for this reason.
    Fail(String),
}

/// What to do next in setting the security descriptor of a pipe.
pub enum SecurityView {
    Take(SecurityStep),
    Free(Result<(), Seq<char>>),
    Fail(Seq<char>),
}

impl View for SecurityAction {
    type V = SecurityView;

    open spec fn view(&self) -> SecurityView {
        match self {
            SecurityAction::Take(step) => SecurityView::Take(*step),
            SecurityAction::Free(Ok(())) => SecurityView::Free(Ok(())),
            SecurityAction::Free(Err(text)) => SecurityView::Free(Err(text@)),
            SecurityAction::Fail(text) => SecurityView::Fail(text@),
        }
    }
}

/// What to do after a step: the next one, or nothing more but to free the descriptor, where there
/// is one, once a step has failed.
pub open spec fn security_next(step: SecurityStep, report: Result<(), Seq<char>>) -> SecurityView {
    match (report, step.next()) {
        (Ok(()), Some(next)) => SecurityView::Take(next),
        (Ok(()), None) => SecurityView::Free(Ok(())),
        (Err(error), _) => if step == SecurityStep::Parse {
            SecurityView::Fail(step.complaint() + error)
        } else {
            SecurityView::Free(Err(step.complaint() + error))
        },
    }
}

/// What to do once all of `reports` were made, the first of them after `step`.
pub open spec fn security_run(
    step: SecurityStep,
    reports: Seq<Result<(), Seq<char>>>,
) -> SecurityView
    decreases reports.len(),
{
    if reports.len() == 0 {
        SecurityView::Take(step)
    } else {
        match security_next(step, reports[0]) {
            SecurityView::Take(next) => security_run(next, reports.drop_first()),
            end => end,
        }
    }
}

impl SecurityStep {
    /// The steps in their order.
    pub open spec fn order() -> Seq<SecurityStep> {
        seq![
            SecurityStep::Parse,
            SecurityStep::ReadDacl,
            SecurityStep::ReadLabel,
            SecurityStep::SetDacl,
            SecurityStep::SetLabel,
        ]
    }

    /// What is said where the step fails. The access list and the label are set in steps of their
    /// own, since they need different rights and fail for different reasons.
    pub open spec fn complaint(self) -> Seq<char> {
        match self {
            SecurityStep::Parse => "failed to parse the pipe SDDL: "@,
            SecurityStep::ReadDacl => "failed to read the pipe DACL: "@,
            SecurityStep::ReadLabel => "failed to read the pipe label: "@,
            SecurityStep::SetDacl => "failed to set the pipe DACL: "@,
            SecurityStep::SetLabel => "failed to set the pipe integrity label: "@,
        }
    }

    /// The step that follows.
    pub open spec fn next(self) -> Option<SecurityStep> {
        match self {
            SecurityStep::Parse => Some(SecurityStep::ReadDacl),
            SecurityStep::ReadDacl => Some(SecurityStep::ReadLabel),
            SecurityStep::ReadLabel => Some(SecurityStep::SetDacl),
            SecurityStep::SetDacl => Some(SecurityStep::SetLabel),
            SecurityStep::SetLabel => None,
        }
    }

    fn complain(self, error: &str) -> (text: String)
        ensures
            text@ == self.complaint() + error@,
    {
        let complaint = match self {
            SecurityStep::Parse => "failed to parse the pipe SDDL: ",
            SecurityStep::ReadDacl => "failed to read the pipe DACL: ",
            SecurityStep::ReadLabel => "failed to read the pipe label: ",
            SecurityStep::SetDacl => "failed to set the pipe DACL: ",
            SecurityStep::SetLabel => "failed to set the pipe integrity label: ",
        };
        complaint.to_owned().concat(error)
    }

    /// What to do after this step went as reported. The first failure ends it all, and a
    /// descriptor is freed exactly where there is one.
    pub fn proceed(self, report: Result<(), String>) -> (action: SecurityAction)
        ensures
            action@ == security_next(
                self,
                match report {
                    Ok(()) => Ok(()),
                    Err(error) => Err(error@),
                },
            ),
    {
        match report {
            Ok(()) => match self {
                SecurityStep::Parse => SecurityAction::Take(SecurityStep::ReadDacl),
                SecurityStep::ReadDacl => SecurityAction::Take(SecurityStep::ReadLabel),
                SecurityStep::ReadLabel => SecurityAction::Take(SecurityStep::SetDacl),
                SecurityStep::SetDacl => SecurityAction::Take(SecurityStep::SetLabel),
                SecurityStep::SetLabel => SecurityAction::Free(Ok(())),
            },
            Err(error) => {
                let text = self.complain(error.as_str());
                match self {
                    SecurityStep::Parse => SecurityAction::Fail(text),
                    _ => SecurityAction::Free(Err(text)),
                }
            },
        }
    }
}

/// The security of a pipe is set exactly where every step works, the last two of which set the
/// access list and the label. The first step that fails ends it with the complaint of that step,
/// and the descriptor is freed unless there never was one.
pub proof fn law_pipe_security_takes_every_step(works: nat, error: Seq<char>)
    requires
        works <= SecurityStep::order().len(),
    ensures
        ({
            let order = SecurityStep::order();
            let fine = Seq::new(works, |i: int| Ok::<(), Seq<char>>(()));
            if works == order.len() {
                security_run(SecurityStep::Parse, fine) == SecurityView::Free(Ok(()))
            } else {
                let step = order[works as int];
                let text = step.complaint() + error;
                &&& security_run(SecurityStep::Parse, fine) == SecurityView::Take(step)
                &&& security_run(SecurityStep::Parse, fine.push(Err(error))) == if works == 0 {
                    SecurityView::Fail(text)
                } else {
                    SecurityView::Free(Err(text))
                }
            }
        }),
{
    reveal_with_fuel(security_run, 6);
}

/// The path of a pipe that is named by something else than a path: the name, without the
/// backslashes in front of it and otherwise whole, behind `\\.\pipe\`.
pub proof fn law_pipe_name_is_kept(count: nat, name: Seq<char>)
    requires
        name.len() == 0 || name[0] != '\\',
    ensures
        ({
            let text = Seq::new(count, |i: int| '\\') + name;
            !begins(text, "\\\\.\\pipe\\"@) ==> pipe_path(text) == "\\\\.\\pipe\\"@ + name
        }),
{
    lemma_backslashes(count, name);
}

/// A path of a pipe stays as it is.
pub proof fn law_pipe_path_is_kept(name: Seq<char>)
    ensures
        pipe_path("\\\\.\\pipe\\"@ + name) == "\\\\.\\pipe\\"@ + name,
{
    let text = PIPE_PREFIX@ + name;
    assert(text.take(PIPE_PREFIX@.len() as int) =~= PIPE_PREFIX@);
}

proof fn lemma_backslashes(count: nat, name: Seq<char>)
    requires
        name.len() == 0 || name[0] != '\\',
    ensures
        without_backslashes(Seq::new(count, |i: int| '\\') + name) == name,
    decreases count,
{
    let text = Seq::new(count, |i: int| '\\') + name;
    if count == 0 {
        assert(text =~= name);
    } else {
        let fewer = (count - 1) as nat;
        assert(text[0] == '\\');
        assert(text.drop_first() =~= Seq::new(fewer, |i: int| '\\') + name);
        lemma_backslashes(fewer, name);
    }
}

/// What is said where a step fails, and the order of the steps.
pub proof fn law_security_steps()
    ensures
        SecurityStep::order() == seq![
            SecurityStep::Parse,
            SecurityStep::ReadDacl,
            SecurityStep::ReadLabel,
            SecurityStep::SetDacl,
            SecurityStep::SetLabel,
        ],
        SecurityStep::Parse.complaint() == "failed to parse the pipe SDDL: "@,
        SecurityStep::ReadDacl.complaint() == "failed to read the pipe DACL: "@,
        SecurityStep::ReadLabel.complaint() == "failed to read the pipe label: "@,
        SecurityStep::SetDacl.complaint() == "failed to set the pipe DACL: "@,
        SecurityStep::SetLabel.complaint() == "failed to set the pipe integrity label: "@,
{
}

/// What clients are granted, as it is written in the security descriptor.
pub proof fn law_client_rights_in_digits()
    ensures
        hexadecimal(PIPE_CLIENT_RIGHTS as nat, 6) == seq!['1', '2', '0', '1', '9', 'b'],
{
    reveal_with_fuel(hexadecimal, 7);
    assert(hexadecimal(PIPE_CLIENT_RIGHTS as nat, 6) =~= seq!['1', '2', '0', '1', '9', 'b']);
}

} // verus!
