//! Opening the socket.

use vstd::prelude::*;

use crate::text::decimal;
use crate::unix_socket::directory;
use crate::unix_socket::octal_permissions;
use crate::unix_socket::octal_reading;
use crate::unix_socket::octal_reading_is_smaller;
use crate::unix_socket::path_parent;
use crate::unix_socket::socket_directory;

verus! {

/// Why a socket could not be opened, with what the system said.
#[derive(Debug, PartialEq, Eq)]
pub enum InitError {
    /// The directory could not be made.
    CreateDirectory { directory: String, path: String, cause: String },
    /// The socket could not be bound.
    Bind { path: String, cause: String },
    /// The permissions could not be set.
    SetPermissions { path: String, cause: String },
}

/// What an [`InitError`] says.
pub enum InitErrorView {
    CreateDirectory { directory: Seq<char>, path: Seq<char>, cause: Seq<char> },
    Bind { path: Seq<char>, cause: Seq<char> },
    SetPermissions { path: Seq<char>, cause: Seq<char> },
}

impl View for InitError {
    type V = InitErrorView;

    open spec fn view(&self) -> InitErrorView {
        match self {
            InitError::CreateDirectory {
                directory,
                path,
                cause,
            } => InitErrorView::CreateDirectory {
                directory: directory@,
                path: path@,
                cause: cause@,
            },
            InitError::Bind { path, cause } => InitErrorView::Bind { path: path@, cause: cause@ },
            InitError::SetPermissions { path, cause } => InitErrorView::SetPermissions {
                path: path@,
                cause: cause@,
            },
        }
    }
}

/// What a path looks like in a message, as `std::path::Path` writes it with `Debug`.
pub uninterp spec fn quoted_path(path: Seq<char>) -> Seq<char>;

/// Calls the `Debug` formatting of `std::path::Path`. Claimed of it: what it writes depends on the
/// path alone.
#[verifier::external_body]
fn quote_path(path: &str) -> (r: String)
    ensures
        r@ == quoted_path(path@),
{
    format!("{:?}", std::path::Path::new(path))
}

impl InitErrorView {
    /// The path of the socket.
    pub open spec fn path(self) -> Seq<char> {
        match self {
            InitErrorView::CreateDirectory { path, .. } => path,
            InitErrorView::Bind { path, .. } => path,
            InitErrorView::SetPermissions { path, .. } => path,
        }
    }

    /// The message of this error, where `directory` and `path` are how the directory that could not
    /// be made and the path of the socket are written.
    pub open spec fn message(self, directory: Seq<char>, path: Seq<char>) -> Seq<char> {
        match self {
            InitErrorView::CreateDirectory { cause, .. } => "Failed to create "@ + directory
                + " for socket "@ + path + ": "@ + cause,
            InitErrorView::Bind { cause, .. } => "Failed to bind listener "@ + path + ": "@ + cause,
            InitErrorView::SetPermissions { cause, .. } => "Failed to set socket "@ + path
                + " permissions: "@ + cause,
        }
    }
}

impl InitError {
    /// The message of this error, where `directory` and `path` are how the directory that could not
    /// be made and the path of the socket are written.
    pub fn message_with(&self, directory: &str, path: &str) -> (r: String)
        ensures
            r@ == self@.message(directory@, path@),
    {
        let mut message;
        match self {
            InitError::CreateDirectory { cause, .. } => {
                message = "Failed to create ".to_owned();
                message.append(directory);
                message.append(" for socket ");
                message.append(path);
                message.append(": ");
                message.append(cause);
            },
            InitError::Bind { cause, .. } => {
                message = "Failed to bind listener ".to_owned();
                message.append(path);
                message.append(": ");
                message.append(cause);
            },
            InitError::SetPermissions { cause, .. } => {
                message = "Failed to set socket ".to_owned();
                message.append(path);
                message.append(" permissions: ");
                message.append(cause);
            },
        }
        message
    }

    /// The message of this error.
    pub fn message(&self) -> (r: String)
        ensures
            r@ == self@.message(
                quoted_path(
                    match self@ {
                        InitErrorView::CreateDirectory { directory, .. } => directory,
                        _ => seq![],
                    },
                ),
                quoted_path(self@.path()),
            ),
    {
        match self {
            InitError::CreateDirectory { directory, path, .. } => {
                self.message_with(&quote_path(directory), &quote_path(path))
            },
            InitError::Bind { path, .. } => self.message_with("", &quote_path(path)),
            InitError::SetPermissions { path, .. } => self.message_with("", &quote_path(path)),
        }
    }
}

/// A step of the opening of a socket, while it is carried out.
#[derive(Clone, Copy, PartialEq, Eq, Structural, Debug)]
pub enum InitStep {
    CheckExisting,
    RemoveExisting,
    CreateDirectory,
    Bind,
    SetPermissions,
    Done,
}

/// The opening of a socket.
pub struct Init {
    /// Where the socket is to stand.
    pub path: String,
    /// The permissions that it is to have, spelled as by [`octal_permissions`].
    pub perms: u32,
    pub step: InitStep,
}

/// What an [`Init`] asks for.
pub enum InitRequest {
    /// Whether there is something at a path.
    CheckExisting { path: String },
    /// A file to be removed, left over from an unclean shutdown.
    RemoveExisting { path: String },
    /// A directory to be made, with those above it.
    CreateDirectory { directory: String },
    /// A listener to be bound to a path.
    Bind { path: String },
    /// The permissions of a file to be set.
    SetPermissions { path: String, mode: u32 },
    /// Nothing: the opening ends; where it succeeded, with the listener that was bound.
    Finish(Result<(), InitError>),
}

/// What comes back to an [`Init`].
pub enum InitReply {
    /// Whether there is something at the path.
    Existing(bool),
    /// What was asked for was done, or what the system said instead.
    Outcome(Result<(), String>),
}

/// What an [`Init`] holds.
pub struct InitView {
    pub path: Seq<char>,
    pub perms: u32,
    pub step: InitStep,
}

/// What an [`InitRequest`] says.
pub enum InitRequestView {
    CheckExisting { path: Seq<char> },
    RemoveExisting { path: Seq<char> },
    CreateDirectory { directory: Seq<char> },
    Bind { path: Seq<char> },
    SetPermissions { path: Seq<char>, mode: u32 },
    Finish(Result<(), InitErrorView>),
}

/// What an [`InitReply`] says.
pub enum InitReplyView {
    Existing(bool),
    Outcome(Result<(), Seq<char>>),
}

impl View for Init {
    type V = InitView;

    open spec fn view(&self) -> InitView {
        InitView { path: self.path@, perms: self.perms, step: self.step }
    }
}

impl View for InitRequest {
    type V = InitRequestView;

    open spec fn view(&self) -> InitRequestView {
        match self {
            InitRequest::CheckExisting { path } => InitRequestView::CheckExisting { path: path@ },
            InitRequest::RemoveExisting { path } => InitRequestView::RemoveExisting { path: path@ },
            InitRequest::CreateDirectory { directory } => InitRequestView::CreateDirectory {
                directory: directory@,
            },
            InitRequest::Bind { path } => InitRequestView::Bind { path: path@ },
            InitRequest::SetPermissions { path, mode } => InitRequestView::SetPermissions {
                path: path@,
                mode: *mode,
            },
            InitRequest::Finish(Ok(_)) => InitRequestView::Finish(Ok(())),
            InitRequest::Finish(Err(error)) => InitRequestView::Finish(Err(error@)),
        }
    }
}

impl View for InitReply {
    type V = InitReplyView;

    open spec fn view(&self) -> InitReplyView {
        match self {
            InitReply::Existing(existing) => InitReplyView::Existing(*existing),
            InitReply::Outcome(Ok(_)) => InitReplyView::Outcome(Ok(())),
            InitReply::Outcome(Err(cause)) => InitReplyView::Outcome(Err(cause@)),
        }
    }
}

/// What was asked for was done.
pub open spec fn is_done(reply: InitReplyView) -> bool {
    reply matches InitReplyView::Outcome(Ok(_))
}

impl InitView {
    /// This opening at another step.
    pub open spec fn at(self, step: InitStep) -> InitView {
        InitView { step, ..self }
    }

    /// The opening goes on with this reply: what is left over has to be removed, and permissions
    /// have to be spelled in octal digits once they are to be set.
    pub open spec fn awaits(self, reply: InitReplyView) -> bool {
        match self.step {
            InitStep::CheckExisting => reply is Existing,
            InitStep::RemoveExisting => is_done(reply),
            InitStep::CreateDirectory => reply is Outcome,
            InitStep::Bind => reply is Outcome && (is_done(reply) ==> octal_reading(
                decimal(self.perms as nat),
            ) is Some),
            InitStep::SetPermissions => reply is Outcome,
            InitStep::Done => false,
        }
    }

    /// How the opening goes on with a reply: what stands at the path is removed, the directory is
    /// made, the socket is bound and given its permissions; the first of these that fails ends it.
    pub open spec fn next(self, reply: InitReplyView) -> (InitView, InitRequestView)
        recommends
            self.awaits(reply),
    {
        let directory = directory(path_parent(self.path));
        match (self.step, reply) {
            (InitStep::CheckExisting, InitReplyView::Existing(true)) => (
                self.at(InitStep::RemoveExisting),
                InitRequestView::RemoveExisting { path: self.path },
            ),
            (InitStep::CheckExisting, _) => (
                self.at(InitStep::CreateDirectory),
                InitRequestView::CreateDirectory { directory },
            ),
            (InitStep::RemoveExisting, _) => (
                self.at(InitStep::CreateDirectory),
                InitRequestView::CreateDirectory { directory },
            ),
            (InitStep::CreateDirectory, InitReplyView::Outcome(Err(cause))) => (
                self.at(InitStep::Done),
                InitRequestView::Finish(
                    Err(InitErrorView::CreateDirectory { directory, path: self.path, cause }),
                ),
            ),
            (InitStep::CreateDirectory, _) => (
                self.at(InitStep::Bind),
                InitRequestView::Bind { path: self.path },
            ),
            (InitStep::Bind, InitReplyView::Outcome(Err(cause))) => (
                self.at(InitStep::Done),
                InitRequestView::Finish(Err(InitErrorView::Bind { path: self.path, cause })),
            ),
            (InitStep::Bind, _) => (
                self.at(InitStep::SetPermissions),
                InitRequestView::SetPermissions {
                    path: self.path,
                    mode: octal_reading(decimal(self.perms as nat))->0 as u32,
                },
            ),
            (InitStep::SetPermissions, InitReplyView::Outcome(Err(cause))) => (
                self.at(InitStep::Done),
                InitRequestView::Finish(
                    Err(InitErrorView::SetPermissions { path: self.path, cause }),
                ),
            ),
            (_, _) => (self.at(InitStep::Done), InitRequestView::Finish(Ok(()))),
        }
    }
}

/// Starts to open the socket at `path`: asks whether there is something there.
pub fn init(path: &str, perms: u32) -> (r: (Init, InitRequest))
    ensures
        r.0@ == (InitView { path: path@, perms, step: InitStep::CheckExisting }),
        r.1@ == (InitRequestView::CheckExisting { path: path@ }),
        (r.0@, r.1@) == init_run(path@, perms, seq![]),
{
    (
        Init { path: path.to_owned(), perms, step: InitStep::CheckExisting },
        InitRequest::CheckExisting { path: path.to_owned() },
    )
}

impl Init {
    /// This opening at another step.
    fn at(self, step: InitStep) -> (r: Init)
        ensures
            r@ == self@.at(step),
    {
        Init { path: self.path, perms: self.perms, step }
    }

    /// Goes on with a reply.
    pub fn step(self, reply: InitReply) -> (r: (Init, InitRequest))
        requires
            self@.awaits(reply@),
        ensures
            (r.0@, r.1@) == self@.next(reply@),
    {
        let path = self.path.clone();
        match (self.step, reply) {
            (InitStep::CheckExisting, InitReply::Existing(true)) => {
                (self.at(InitStep::RemoveExisting), InitRequest::RemoveExisting { path })
            },
            (InitStep::CheckExisting, _) | (InitStep::RemoveExisting, _) => {
                let directory = socket_directory(&path);
                (self.at(InitStep::CreateDirectory), InitRequest::CreateDirectory { directory })
            },
            (InitStep::CreateDirectory, InitReply::Outcome(Err(cause))) => {
                let directory = socket_directory(&path);
                (
                    self.at(InitStep::Done),
                    InitRequest::Finish(
                        Err(InitError::CreateDirectory { directory, path, cause }),
                    ),
                )
            },
            (InitStep::CreateDirectory, _) => {
                (self.at(InitStep::Bind), InitRequest::Bind { path })
            },
            (InitStep::Bind, InitReply::Outcome(Err(cause))) => {
                (
                    self.at(InitStep::Done),
                    InitRequest::Finish(Err(InitError::Bind { path, cause })),
                )
            },
            (InitStep::Bind, _) => {
                let mode = octal_permissions(self.perms).unwrap();
                (self.at(InitStep::SetPermissions), InitRequest::SetPermissions { path, mode })
            },
            (InitStep::SetPermissions, InitReply::Outcome(Err(cause))) => {
                (
                    self.at(InitStep::Done),
                    InitRequest::Finish(Err(InitError::SetPermissions { path, cause })),
                )
            },
            (InitStep::SetPermissions, _) => {
                (self.at(InitStep::Done), InitRequest::Finish(Ok(())))
            },
            (InitStep::Done, _) => unreached(),
        }
    }
}

/// Where the opening stands after `replies`.
pub open spec fn init_run(path: Seq<char>, perms: u32, replies: Seq<InitReplyView>) -> (
    InitView,
    InitRequestView,
)
    decreases replies.len(),
{
    if replies.len() == 0 {
        (
            InitView { path, perms, step: InitStep::CheckExisting },
            InitRequestView::CheckExisting { path },
        )
    } else {
        init_run(path, perms, replies.drop_last()).0.next(replies.last())
    }
}

/// Each of `replies` answers what was asked for.
pub open spec fn is_init_run(path: Seq<char>, perms: u32, replies: Seq<InitReplyView>) -> bool
    decreases replies.len(),
{
    replies.len() > 0 ==> is_init_run(path, perms, replies.drop_last()) && init_run(
        path,
        perms,
        replies.drop_last(),
    ).0.awaits(replies.last())
}

/// How many replies come before the directory is made: one more where something had to be removed.
pub open spec fn replies_before_directory(replies: Seq<InitReplyView>) -> int {
    if replies.len() > 0 && replies[0] == InitReplyView::Existing(true) {
        2
    } else {
        1
    }
}

/// The socket is removed where it exists, then its directory is made, then it is bound, then it
/// gets its permissions: each is asked for once, after all before it have succeeded. The opening
/// succeeds only with the last of these, and fails only with the one that failed.
pub proof fn init_opens_in_order(path: Seq<char>, perms: u32, replies: Seq<InitReplyView>)
    requires
        is_init_run(path, perms, replies),
    ensures
        ({
            let done = replies.len() - replies_before_directory(replies);
            let directory = directory(path_parent(path));
            let request = init_run(path, perms, replies).1;
            let last = replies.last();
            if replies.len() == 0 {
                request == InitRequestView::CheckExisting { path }
            } else if done < 0 {
                request == InitRequestView::RemoveExisting { path }
            } else if done == 0 {
                request == InitRequestView::CreateDirectory { directory }
            } else {
                match last {
                    InitReplyView::Outcome(Ok(_)) => if done == 1 {
                        request == InitRequestView::Bind { path }
                    } else if done == 2 {
                        &&& request is SetPermissions
                        &&& request->SetPermissions_path == path
                        &&& octal_reading(decimal(perms as nat)) == Some(request->mode as int)
                    } else {
                        done == 3 && request == InitRequestView::Finish(Ok(()))
                    },
                    InitReplyView::Outcome(Err(cause)) => if done == 1 {
                        request == InitRequestView::Finish(
                            Err(InitErrorView::CreateDirectory { directory, path, cause }),
                        )
                    } else if done == 2 {
                        request == InitRequestView::Finish(Err(InitErrorView::Bind { path, cause }))
                    } else {
                        done == 3 && request == InitRequestView::Finish(
                            Err(InitErrorView::SetPermissions { path, cause }),
                        )
                    },
                    _ => false,
                }
            }
        }),
        forall|i: int|
            1 <= i < replies.len() - 1 ==> is_done(#[trigger] replies[i]),
    decreases replies.len(),
{
    octal_reading_is_smaller(perms as nat);
    init_stands_at_its_step(path, perms, replies);
    if replies.len() > 0 {
        let before = replies.drop_last();
        init_stands_at_its_step(path, perms, before);
        init_opens_in_order(path, perms, before);
        assert forall|i: int| 1 <= i < replies.len() - 1 implies is_done(#[trigger] replies[i]) by {
            assert(replies[i] == before[i]);
        }
    }
}

/// The step at which the opening stands is told by what has come back.
proof fn init_stands_at_its_step(path: Seq<char>, perms: u32, replies: Seq<InitReplyView>)
    requires
        is_init_run(path, perms, replies),
    ensures
        ({
            let done = replies.len() - replies_before_directory(replies);
            let state = init_run(path, perms, replies).0;
            &&& state.path == path
            &&& state.perms == perms
            &&& replies.len() > 0 ==> replies[0] is Existing
            &&& state.step == if replies.len() == 0 {
                InitStep::CheckExisting
            } else if done < 0 {
                InitStep::RemoveExisting
            } else if done == 0 {
                InitStep::CreateDirectory
            } else if done == 1 && is_done(replies.last()) {
                InitStep::Bind
            } else if done == 2 && is_done(replies.last()) {
                InitStep::SetPermissions
            } else {
                InitStep::Done
            }
            &&& done == 0 && replies.len() == 2 ==> is_done(replies.last())
            &&& done > 0 ==> replies.last() is Outcome
            &&& done == 2 ==> octal_reading(decimal(perms as nat)) is Some || !is_done(
                replies.last(),
            )
            &&& done <= 3
        }),
    decreases replies.len(),
{
    if replies.len() > 0 {
        let before = replies.drop_last();
        init_stands_at_its_step(path, perms, before);
        if replies.len() > 1 {
            assert(before[0] == replies[0]);
        }
    }
}

/// The message of an error names what could not be done, the directory and the path, and ends with
/// what the system said.
pub proof fn messages_say_what_failed(error: InitErrorView, directory: Seq<char>, path: Seq<char>)
    ensures
        error matches InitErrorView::CreateDirectory { cause, .. } ==> error.message(directory, path)
            == seq![
            "Failed to create "@,
            directory,
            " for socket "@,
            path,
            ": "@,
            cause,
        ].flatten(),
        error matches InitErrorView::Bind { cause, .. } ==> error.message(directory, path) == seq![
            "Failed to bind listener "@,
            path,
            ": "@,
            cause,
        ].flatten(),
        error matches InitErrorView::SetPermissions { cause, .. } ==> error.message(
            directory,
            path,
        ) == seq!["Failed to set socket "@, path, " permissions: "@, cause].flatten(),
{
    let cause = match error {
        InitErrorView::CreateDirectory { cause, .. } => cause,
        InitErrorView::Bind { cause, .. } => cause,
        InitErrorView::SetPermissions { cause, .. } => cause,
    };
    flatten_of_four("Failed to bind listener "@, path, ": "@, cause);
    flatten_of_four("Failed to set socket "@, path, " permissions: "@, cause);
    flatten_of_four("Failed to create "@, directory, " for socket "@, path);
    let four = seq!["Failed to create "@, directory, " for socket "@, path];
    four.lemma_flatten_push(": "@);
    four.push(": "@).lemma_flatten_push(cause);
    assert(four.push(": "@).push(cause) =~= seq![
        "Failed to create "@,
        directory,
        " for socket "@,
        path,
        ": "@,
        cause,
    ]);
}

/// Four texts one after the other.
proof fn flatten_of_four(a: Seq<char>, b: Seq<char>, c: Seq<char>, d: Seq<char>)
    ensures
        seq![a, b, c, d].flatten() == a + b + c + d,
{
    let none = Seq::<Seq<char>>::empty();
    assert(none.flatten() =~= Seq::<char>::empty());
    none.lemma_flatten_push(a);
    none.push(a).lemma_flatten_push(b);
    none.push(a).push(b).lemma_flatten_push(c);
    none.push(a).push(b).push(c).lemma_flatten_push(d);
    assert(seq![a, b, c, d] =~= none.push(a).push(b).push(c).push(d));
    assert(Seq::<char>::empty() + a =~= a);
}

} // verus!
