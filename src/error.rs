//! The application's error taxonomy: categories, user-facing messages and
//! suggestions, and the classification of free-form error text.

use crate::text::{contains_str, contains_text, lower_of, lowercase, owned};
use vstd::prelude::*;

verus! {

/// Broad classes of failure, used to guide the user.
#[derive(Debug, Clone, Copy, PartialEq, Eq, Structural)]
pub enum ErrorCategory {
    Network,
    Permission,
    FileSystem,
    Validation,
    Command,
    Update,
    Unknown,
}

impl ErrorCategory {
    /// The category of an error that names none.
    pub fn unknown() -> (r: ErrorCategory)
        ensures
            r == ErrorCategory::Unknown,
    {
        ErrorCategory::Unknown
    }
}

#[derive(Debug, Clone)]
pub enum AppError {
    Io { message: String, code: Option<i32> },
    Command { message: String, output: Option<String> },
    DeviceNotConnected,
    Cancelled,
    InvalidPartition(String),
    Parse(String),
    Update { message: String, category: ErrorCategory, suggestion: Option<String> },
    Other { message: String, category: ErrorCategory },
}

/// The category of each kind of error.
pub open spec fn category_of(e: AppError) -> ErrorCategory {
    match e {
        AppError::Io { .. } => ErrorCategory::FileSystem,
        AppError::Command { .. } => ErrorCategory::Command,
        AppError::DeviceNotConnected => ErrorCategory::Validation,
        AppError::Cancelled => ErrorCategory::Unknown,
        AppError::InvalidPartition(_) => ErrorCategory::Validation,
        AppError::Parse(_) => ErrorCategory::Validation,
        AppError::Update { category, .. } => category,
        AppError::Other { category, .. } => category,
    }
}

/// The message of each kind of error.
pub open spec fn message_of(e: AppError) -> Seq<char> {
    match e {
        AppError::Io { message, .. } => message@,
        AppError::Command { message, .. } => message@,
        AppError::DeviceNotConnected => "Device not connected"@,
        AppError::Cancelled => "Operation cancelled"@,
        AppError::InvalidPartition(m) => m@,
        AppError::Parse(m) => m@,
        AppError::Update { message, .. } => message@,
        AppError::Other { message, .. } => message@,
    }
}

/// The advice shown with each kind of error, if any.
pub open spec fn suggestion_of(e: AppError) -> Option<Seq<char>> {
    match e {
        AppError::Update { suggestion, .. } => match suggestion {
            Some(s) => Some(s@),
            None => None,
        },
        AppError::Io { message, .. } => {
            let l = lower_of(message@);
            if contains_text(l, "permission"@) || contains_text(l, "access denied"@) {
                Some("Run as Administrator or check folder permissions"@)
            } else if contains_text(l, "not found"@) || contains_text(l, "does not exist"@) {
                Some("Check that the file or directory exists"@)
            } else {
                None
            }
        },
        AppError::Command { message, .. } => if contains_text(message@, "antumbra"@) {
            Some("Ensure antumbra binary is installed and accessible"@)
        } else {
            None
        },
        AppError::DeviceNotConnected => Some(
            "Connect your device and ensure it's in the correct mode (BROM/preloader)"@,
        ),
        _ => None,
    }
}

/// The update-error class of a lower-cased error text: its category and advice.
pub open spec fn update_class(l: Seq<char>) -> Option<(ErrorCategory, Seq<char>)> {
    if contains_text(l, "sharing violation"@) || contains_text(l, "error code 32"@)
        || contains_text(l, "being used by another process"@) {
        Some((ErrorCategory::Permission, "Close antumbra.exe and try again"@))
    } else if contains_text(l, "access denied"@) || contains_text(l, "error code 5"@)
        || contains_text(l, "permission denied"@) {
        Some((ErrorCategory::Permission, "Run as Administrator or check antivirus settings"@))
    } else if contains_text(l, "network"@) || contains_text(l, "github"@) || contains_text(
        l,
        "download"@,
    ) || contains_text(l, "connection"@) || contains_text(l, "timeout"@) || contains_text(
        l,
        "dns"@,
    ) {
        Some((ErrorCategory::Network, "Check your internet connection and try again"@))
    } else if contains_text(l, "checksum"@) || contains_text(l, "hash"@) || contains_text(
        l,
        "verification failed"@,
    ) {
        Some((ErrorCategory::Validation, "Download may be corrupted. Try downloading again"@))
    } else if contains_text(l, "disk full"@) || contains_text(l, "insufficient disk space"@)
        || contains_text(l, "no space left"@) {
        Some((ErrorCategory::FileSystem, "Free up disk space and try again"@))
    } else {
        None
    }
}

impl AppError {
    pub fn io(message: String) -> (r: AppError)
        ensures
            r == (AppError::Io { message, code: None }),
    {
        AppError::Io { message, code: None }
    }

    pub fn io_with_code(message: String, code: i32) -> (r: AppError)
        ensures
            r == (AppError::Io { message, code: Some(code) }),
    {
        AppError::Io { message, code: Some(code) }
    }

    pub fn command(message: String) -> (r: AppError)
        ensures
            r == (AppError::Command { message, output: None }),
    {
        AppError::Command { message, output: None }
    }

    pub fn command_with_output(message: String, output: String) -> (r: AppError)
        ensures
            r == (AppError::Command { message, output: Some(output) }),
    {
        AppError::Command { message, output: Some(output) }
    }

    pub fn invalid_partition(message: String) -> (r: AppError)
        ensures
            r == AppError::InvalidPartition(message),
    {
        AppError::InvalidPartition(message)
    }

    pub fn parse(message: String) -> (r: AppError)
        ensures
            r == AppError::Parse(message),
    {
        AppError::Parse(message)
    }

    pub fn other(message: String) -> (r: AppError)
        ensures
            r == (AppError::Other { message, category: ErrorCategory::Unknown }),
    {
        AppError::Other { message, category: ErrorCategory::Unknown }
    }

    pub fn other_with_category(message: String, category: ErrorCategory) -> (r: AppError)
        ensures
            r == (AppError::Other { message, category }),
    {
        AppError::Other { message, category }
    }

    /// The error's category, for classification.
    pub fn category(&self) -> (r: ErrorCategory)
        ensures
            r == category_of(*self),
    {
        match self {
            AppError::Io { .. } => ErrorCategory::FileSystem,
            AppError::Command { .. } => ErrorCategory::Command,
            AppError::DeviceNotConnected => ErrorCategory::Validation,
            AppError::Cancelled => ErrorCategory::Unknown,
            AppError::InvalidPartition(_) => ErrorCategory::Validation,
            AppError::Parse(_) => ErrorCategory::Validation,
            AppError::Update { category, .. } => *category,
            AppError::Other { category, .. } => *category,
        }
    }

    /// Advice for resolving the error, if there is any.
    pub fn suggestion(&self) -> (r: Option<String>)
        ensures
            match r {
                Some(s) => suggestion_of(*self) == Some(s@),
                None => suggestion_of(*self) is None,
            },
    {
        match self {
            AppError::Update { suggestion, .. } => match suggestion {
                Some(s) => Some(s.clone()),
                None => None,
            },
            AppError::Io { message, .. } => {
                let l = lowercase(message.as_str());
                if contains_str(l.as_str(), "permission") || contains_str(
                    l.as_str(),
                    "access denied",
                ) {
                    Some(owned("Run as Administrator or check folder permissions"))
                } else if contains_str(l.as_str(), "not found") || contains_str(
                    l.as_str(),
                    "does not exist",
                ) {
                    Some(owned("Check that the file or directory exists"))
                } else {
                    None
                }
            },
            AppError::Command { message, .. } => {
                if contains_str(message.as_str(), "antumbra") {
                    Some(owned("Ensure antumbra binary is installed and accessible"))
                } else {
                    None
                }
            },
            AppError::DeviceNotConnected => Some(
                owned("Connect your device and ensure it's in the correct mode (BROM/preloader)"),
            ),
            _ => None,
        }
    }

    /// The error's message.
    pub fn message(&self) -> (r: String)
        ensures
            r@ == message_of(*self),
    {
        match self {
            AppError::Io { message, .. } => message.clone(),
            AppError::Command { message, .. } => message.clone(),
            AppError::DeviceNotConnected => owned("Device not connected"),
            AppError::Cancelled => owned("Operation cancelled"),
            AppError::InvalidPartition(msg) => msg.clone(),
            AppError::Parse(msg) => msg.clone(),
            AppError::Update { message, .. } => message.clone(),
            AppError::Other { message, .. } => message.clone(),
        }
    }

    /// Classifies a free-form error text: known causes of a failed update get
    /// their category and advice; anything else is an uncategorised error.
    pub fn from_message(text: String) -> (r: AppError)
        ensures
            match update_class(lower_of(text@)) {
                Some(c) => r matches AppError::Update { message, category, suggestion } && message
                    == text && category == c.0 && suggestion is Some && suggestion->Some_0@ == c.1,
                None => r == (AppError::Other { message: text, category: ErrorCategory::Unknown }),
            },
    {
        let l = lowercase(text.as_str());
        let l = l.as_str();
        if contains_str(l, "sharing violation") || contains_str(l, "error code 32") || contains_str(
            l,
            "being used by another process",
        ) {
            return AppError::Update {
                message: text,
                category: ErrorCategory::Permission,
                suggestion: Some(owned("Close antumbra.exe and try again")),
            };
        }
        if contains_str(l, "access denied") || contains_str(l, "error code 5") || contains_str(
            l,
            "permission denied",
        ) {
            return AppError::Update {
                message: text,
                category: ErrorCategory::Permission,
                suggestion: Some(owned("Run as Administrator or check antivirus settings")),
            };
        }
        if contains_str(l, "network") || contains_str(l, "github") || contains_str(l, "download")
            || contains_str(l, "connection") || contains_str(l, "timeout") || contains_str(
            l,
            "dns",
        ) {
            return AppError::Update {
                message: text,
                category: ErrorCategory::Network,
                suggestion: Some(owned("Check your internet connection and try again")),
            };
        }
        if contains_str(l, "checksum") || contains_str(l, "hash") || contains_str(
            l,
            "verification failed",
        ) {
            return AppError::Update {
                message: text,
                category: ErrorCategory::Validation,
                suggestion: Some(owned("Download may be corrupted. Try downloading again")),
            };
        }
        if contains_str(l, "disk full") || contains_str(l, "insufficient disk space")
            || contains_str(l, "no space left") {
            return AppError::Update {
                message: text,
                category: ErrorCategory::FileSystem,
                suggestion: Some(owned("Free up disk space and try again")),
            };
        }
        AppError::Other { message: text, category: ErrorCategory::Unknown }
    }
}

} // verus!
