//! The top-level error kind of the tool.

use vstd::prelude::*;
use vstd::string::*;

use crate::provider::{provider_error_msg, ProviderError};

verus! {

/// What can go wrong at the tool's level.
#[derive(Debug)]
pub enum AppError {
    Provider(ProviderError),
    Output(String),
    NotFound(String),
    Io(String),
}

/// The text a tool error renders to.
pub open spec fn app_error_msg(e: AppError) -> Seq<char> {
    match e {
        AppError::Provider(p) => "provider error: "@ + provider_error_msg(p),
        AppError::Output(s) => "output error: "@ + s@,
        AppError::NotFound(s) => "application not found: "@ + s@,
        AppError::Io(s) => "io error: "@ + s@,
    }
}

impl AppError {
    /// The error rendered as text.
    pub fn message(&self) -> (r: String)
        ensures
            r@ == app_error_msg(*self),
    {
        match self {
            AppError::Provider(p) => {
                let mut m = String::from_str("provider error: ");
                let pm = p.message();
                m.append(pm.as_str());
                m
            },
            AppError::Output(s) => {
                let mut m = String::from_str("output error: ");
                m.append(s.as_str());
                m
            },
            AppError::NotFound(s) => {
                let mut m = String::from_str("application not found: ");
                m.append(s.as_str());
                m
            },
            AppError::Io(s) => {
                let mut m = String::from_str("io error: ");
                m.append(s.as_str());
                m
            },
        }
    }
}

} // verus!
