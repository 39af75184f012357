//! What the commands ask of the registered sources.

use vstd::prelude::*;

use crate::app::{all_diagnostics, approve_command, approved, flattened, navigation_uri, uri_after, AppError, AppErrorView};
use crate::domain::{
    CommandSpec, CommandView, Diagnostic, ResumeState, ResumeStatus, Session, SourceDescriptor,
};
use crate::model::{opt_view, or_text, views};
use crate::provider::{
    check_gives, command_gives, describes, diagnosis_gives, is_first_with_id, none_gives_id, uri_gives, ProviderError,
    ProviderRegistry, Registered, SessionProvider,
};

verus! {

/// Finds the source of a session: the first that gives its id.
pub fn source_of<'a>(registry: &'a ProviderRegistry, session: &Session) -> (r: Result<&'a Registered, AppError>)
    ensures
        match r {
            Ok(found) => exists|i: int| #[trigger]
                is_first_with_id(registry@, i, session@.source) && registry@[i] == *found,
            Err(e) => none_gives_id(registry@, session@.source) && e@ == (
            AppErrorView::SourceNotRegistered { source: session@.source }),
        },
{
    match registry.get(&session.source) {
        Some(found) => {
            proof {
                let i = choose|i: int| #[trigger]
                    is_first_with_id(registry@, i, session.source@) && registry@[i] == *found;
                assert(is_first_with_id(registry@, i, session@.source));
                assert(registry@[i] == *found);
            }
            Ok(found)
        },
        None => Err(AppError::SourceNotRegistered { source: session.source.as_str().to_owned() }),
    }
}

/// Whether `result` can come of preparing the command that resumes `session` with the source
/// `provider`: the check comes first, and a command is asked for only where the session is ready.
pub open spec fn prepared_by<P: SessionProvider + ?Sized>(
    provider: &P,
    session: &Session,
    result: Result<CommandView, AppErrorView>,
) -> bool {
    ||| exists|e: ProviderError| #[trigger]
        check_gives(provider, session, Err(e)) && result == Err::<CommandView, AppErrorView>(
            AppErrorView::Provider(e@),
        )
    ||| exists|status: ResumeStatus| #[trigger]
        check_gives(provider, session, Ok(status)) && status@.state != ResumeState::Ready && result
            == Err::<CommandView, AppErrorView>(
            AppErrorView::NotResumable {
                message: or_text(status@.message, "当前会话不可恢复"@),
            },
        )
    ||| exists|status: ResumeStatus, command: Result<CommandSpec, ProviderError>| #[trigger]
        check_gives(provider, session, Ok(status)) && status@.state == ResumeState::Ready && #[trigger]
        command_gives(provider, session, command) && result == approved(
            status@,
            match command {
                Ok(spec) => Ok(spec@),
                Err(e) => Err(e@),
            },
        )
}

fn prepare_with<P: SessionProvider + ?Sized>(provider: &P, session: &Session) -> (r: Result<CommandSpec, AppError>)
    ensures
        prepared_by(
            provider,
            session,
            match r {
                Ok(spec) => Ok(spec@),
                Err(e) => Err(e@),
            },
        ),
{
    let checked = provider.check_resume(session);
    proof {
        assert(check_gives(provider, session, checked));
    }
    match checked {
        Ok(status) => {
            if status.is_ready() {
                let command = provider.build_resume_command(session);
                proof {
                    assert(command_gives(provider, session, command));
                }
                approve_command(&status, command)
            } else {
                let message = crate::model::text_or(&status.message, "当前会话不可恢复").to_owned();
                Err(AppError::NotResumable { message })
            }
        },
        Err(e) => Err(AppError::Provider(e)),
    }
}

/// Prepares the official command that resumes a session: its source is found and asked whether it can
/// be resumed, and only then for the command.
pub fn prepare_resume_command(registry: &ProviderRegistry, session: &Session) -> (r: Result<
    CommandSpec,
    AppError,
>)
    ensures
        ({
            let result = match r {
                Ok(spec) => Ok(spec@),
                Err(e) => Err(e@),
            };
            ||| none_gives_id(registry@, session@.source) && result == Err::<CommandView, AppErrorView>(
                AppErrorView::SourceNotRegistered { source: session@.source },
            )
            ||| exists|i: int| #[trigger]
                is_first_with_id(registry@, i, session@.source) && prepared_by(
                    &*registry@[i].provider,
                    session,
                    result,
                )
        }),
{
    match source_of(registry, session) {
        Ok(found) => prepare_with(&*found.provider, session),
        Err(e) => Err(e),
    }
}

fn uri_of<P: SessionProvider + ?Sized>(provider: &P, session: &Session) -> (r: Result<Option<String>, ProviderError>)
    ensures
        uri_gives(provider, session, r),
{
    provider.build_app_uri(session)
}

/// The URI to be opened once a session was resumed: none where that is switched off, or where its
/// source is not registered or gives none.
pub fn resumed_uri(registry: &ProviderRegistry, session: &Session, no_open_in_app: bool) -> (r: Option<String>)
    ensures
        r is None && none_gives_id(registry@, session@.source) || exists|
            i: int,
            given: Result<Option<String>, ProviderError>,
        |
            {
                &&& #[trigger] is_first_with_id(registry@, i, session@.source)
                &&& #[trigger] uri_gives(&*registry@[i].provider, session, given)
                &&& opt_view(r) == uri_after(
                    !no_open_in_app,
                    match given {
                        Ok(uri) => opt_view(uri),
                        Err(_) => None,
                    },
                )
            },
{
    match source_of(registry, session) {
        Ok(found) => navigation_uri(no_open_in_app, uri_of(&*found.provider, session)),
        Err(_) => None,
    }
}

fn diagnose_one<P: SessionProvider + ?Sized>(provider: &P) -> (r: Vec<Diagnostic>)
    ensures
        diagnosis_gives(provider, r),
{
    provider.diagnose()
}

/// Diagnoses every source, in order, and adds whether sessions can be opened in the app.
pub fn diagnose_all(registry: &ProviderRegistry, navigation: Diagnostic) -> (r: Vec<Diagnostic>)
    ensures
        exists|found: Seq<Vec<Diagnostic>>|
            {
                &&& found.len() == registry@.len()
                &&& forall|i: int|
                    0 <= i < found.len() ==> diagnosis_gives(
                        &*registry@[i].provider,
                        #[trigger] found[i],
                    )
                &&& views(r@) == (#[trigger] flattened(found)).push(navigation@)
            },
{
    let entries = registry.providers();
    let mut found: Vec<Vec<Diagnostic>> = Vec::new();
    let mut i: usize = 0;
    while i < entries.len()
        invariant
            i <= entries@.len(),
            entries@ == registry@,
            found@.len() == i,
            forall|k: int|
                0 <= k < i ==> diagnosis_gives(&*registry@[k].provider, #[trigger] found@[k]),
        decreases entries@.len() - i,
    {
        found.push(diagnose_one(&*entries[i].provider));
        i = i + 1;
    }
    all_diagnostics(found, navigation)
}

fn describe_one<P: SessionProvider + ?Sized>(provider: &P) -> (r: SourceDescriptor)
    ensures
        describes(provider, r),
{
    provider.descriptor()
}

/// Describes every source, in order.
pub fn describe_all(registry: &ProviderRegistry) -> (r: Vec<SourceDescriptor>)
    ensures
        r@.len() == registry@.len(),
        forall|i: int| 0 <= i < r@.len() ==> describes(&*registry@[i].provider, #[trigger] r@[i]),
{
    let entries = registry.providers();
    let mut r: Vec<SourceDescriptor> = Vec::new();
    let mut i: usize = 0;
    while i < entries.len()
        invariant
            i <= entries@.len(),
            entries@ == registry@,
            r@.len() == i,
            forall|k: int| 0 <= k < i ==> describes(&*registry@[k].provider, #[trigger] r@[k]),
        decreases entries@.len() - i,
    {
        r.push(describe_one(&*entries[i].provider));
        i = i + 1;
    }
    r
}

} // verus!
