//! The errors that the commands report, and their one-line descriptions.
use vstd::prelude::*;

use crate::text::{opt_view, owned};

verus! {

/// What went wrong. Paths are held as text.
#[derive(Debug)]
pub enum AppError {
    NotFound { resource: String, identifier: String, hint: Option<String> },
    AlreadyExists { resource: String, identifier: String, hint: Option<String> },
    InvalidInput { message: String, hint: Option<String> },
    PermissionDenied { path: String, action: String, hint: Option<String> },
    MissingDependency { binary: String, hint: Option<String> },
    InvalidConfig { path: String, message: String, hint: Option<String> },
    Internal(String),
}

/// An error with every text taken by its view.
pub enum AppErrorView {
    NotFound { resource: Seq<char>, identifier: Seq<char>, hint: Option<Seq<char>> },
    AlreadyExists { resource: Seq<char>, identifier: Seq<char>, hint: Option<Seq<char>> },
    InvalidInput { message: Seq<char>, hint: Option<Seq<char>> },
    PermissionDenied { path: Seq<char>, action: Seq<char>, hint: Option<Seq<char>> },
    MissingDependency { binary: Seq<char>, hint: Option<Seq<char>> },
    InvalidConfig { path: Seq<char>, message: Seq<char>, hint: Option<Seq<char>> },
    Internal(Seq<char>),
}

impl View for AppError {
    type V = AppErrorView;

    open spec fn view(&self) -> AppErrorView {
        match self {
            AppError::NotFound { resource, identifier, hint } => AppErrorView::NotFound {
                resource: resource@,
                identifier: identifier@,
                hint: opt_view(*hint),
            },
            AppError::AlreadyExists { resource, identifier, hint } => AppErrorView::AlreadyExists {
                resource: resource@,
                identifier: identifier@,
                hint: opt_view(*hint),
            },
            AppError::InvalidInput { message, hint } => AppErrorView::InvalidInput {
                message: message@,
                hint: opt_view(*hint),
            },
            AppError::PermissionDenied { path, action, hint } => AppErrorView::PermissionDenied {
                path: path@,
                action: action@,
                hint: opt_view(*hint),
            },
            AppError::MissingDependency { binary, hint } => AppErrorView::MissingDependency {
                binary: binary@,
                hint: opt_view(*hint),
            },
            AppError::InvalidConfig { path, message, hint } => AppErrorView::InvalidConfig {
                path: path@,
                message: message@,
                hint: opt_view(*hint),
            },
            AppError::Internal(m) => AppErrorView::Internal(m@),
        }
    }
}

/// An `InvalidInput` error with a hint.
pub open spec fn invalid_input(message: Seq<char>, hint: Seq<char>) -> AppErrorView {
    AppErrorView::InvalidInput { message, hint: Some(hint) }
}

/// A `NotFound` error about a host.
pub open spec fn host_not_found(identifier: Seq<char>, hint: Seq<char>) -> AppErrorView {
    AppErrorView::NotFound { resource: "Host"@, identifier, hint: Some(hint) }
}

/// An `AlreadyExists` error about a host.
pub open spec fn host_exists(identifier: Seq<char>, hint: Seq<char>) -> AppErrorView {
    AppErrorView::AlreadyExists { resource: "Host"@, identifier, hint: Some(hint) }
}

pub fn make_invalid_input(message: &str, hint: &str) -> (e: AppError)
    ensures
        e@ == invalid_input(message@, hint@),
{
    AppError::InvalidInput { message: owned(message), hint: Some(owned(hint)) }
}

pub fn make_host_not_found(identifier: String, hint: &str) -> (e: AppError)
    ensures
        e@ == host_not_found(identifier@, hint@),
{
    AppError::NotFound { resource: owned("Host"), identifier, hint: Some(owned(hint)) }
}

pub fn make_host_exists(identifier: String, hint: &str) -> (e: AppError)
    ensures
        e@ == host_exists(identifier@, hint@),
{
    AppError::AlreadyExists { resource: owned("Host"), identifier, hint: Some(owned(hint)) }
}

/// `" {hint}"` where there is a hint, nothing otherwise.
pub open spec fn hint_suffix(hint: Option<Seq<char>>) -> Seq<char> {
    match hint {
        Some(h) => " "@ + h,
        None => Seq::empty(),
    }
}

/// The one-line description of an error.
pub open spec fn error_text(e: AppErrorView) -> Seq<char> {
    match e {
        AppErrorView::NotFound { resource, identifier, hint } => resource + " '"@ + identifier
            + "' not found."@ + hint_suffix(hint),
        AppErrorView::AlreadyExists { resource, identifier, hint } => resource + " '"@
            + identifier + "' already exists."@ + hint_suffix(hint),
        AppErrorView::InvalidInput { message, hint } => message + hint_suffix(hint),
        AppErrorView::PermissionDenied { path, action, hint } => "Permission denied while trying to "@
            + action + " "@ + path + "."@ + hint_suffix(hint),
        AppErrorView::MissingDependency { binary, hint } => "Required dependency `"@ + binary
            + "` not found."@ + hint_suffix(hint),
        AppErrorView::InvalidConfig { path, message, hint } => "Invalid config at "@ + path
            + ": "@ + message + hint_suffix(hint),
        AppErrorView::Internal(m) => m,
    }
}

fn push_hint(out: &mut String, hint: &Option<String>)
    ensures
        final(out)@ == old(out)@ + hint_suffix(opt_view(*hint)),
{
    match hint {
        Some(h) => {
            out.append(" ");
            out.append(h.as_str());
        },
        None => {
            assert(old(out)@ + Seq::<char>::empty() =~= old(out)@);
        },
    }
}

impl AppError {
    /// The text that the error displays.
    pub fn describe(&self) -> (r: String)
        ensures
            r@ == error_text(self@),
    {
        let mut out = String::new();
        match self {
            AppError::NotFound { resource, identifier, hint } => {
                out.append(resource.as_str());
                out.append(" '");
                out.append(identifier.as_str());
                out.append("' not found.");
                push_hint(&mut out, hint);
            },
            AppError::AlreadyExists { resource, identifier, hint } => {
                out.append(resource.as_str());
                out.append(" '");
                out.append(identifier.as_str());
                out.append("' already exists.");
                push_hint(&mut out, hint);
            },
            AppError::InvalidInput { message, hint } => {
                out.append(message.as_str());
                push_hint(&mut out, hint);
            },
            AppError::PermissionDenied { path, action, hint } => {
                out.append("Permission denied while trying to ");
                out.append(action.as_str());
                out.append(" ");
                out.append(path.as_str());
                out.append(".");
                push_hint(&mut out, hint);
            },
            AppError::MissingDependency { binary, hint } => {
                out.append("Required dependency `");
                out.append(binary.as_str());
                out.append("` not found.");
                push_hint(&mut out, hint);
            },
            AppError::InvalidConfig { path, message, hint } => {
                out.append("Invalid config at ");
                out.append(path.as_str());
                out.append(": ");
                out.append(message.as_str());
                push_hint(&mut out, hint);
            },
            AppError::Internal(m) => {
                out.append(m.as_str());
            },
        }
        out
    }
}

} // verus!
