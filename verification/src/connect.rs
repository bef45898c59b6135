//! Joining a network, and the wording of the client's errors.
//!
//! Joining is left to the system's network helper, which knows how to ask
//! for a passphrase. The client only says how the helper is to be called and
//! reports whether it could be started; what the helper then prints is not
//! looked at.

use vstd::prelude::*;
use vstd::string::StringExecFns;
use crate::bus::{ClientError, ClientErrorView};

verus! {

/// A program to start, with its arguments.
#[derive(Debug, Clone, PartialEq, Eq)]
pub struct HelperCommand {
    pub program: String,
    pub arguments: Vec<String>,
}

/// The arguments with which the helper joins the network named `ssid`.
pub open spec fn connect_arguments(ssid: Seq<char>) -> Seq<Seq<char>> {
    seq!["device"@, "wifi"@, "connect"@, ssid]
}

/// The call of the helper that joins the network named `ssid`.
pub fn connect_command(ssid: &str) -> (command: HelperCommand)
    ensures
        command.program@ == "nmcli"@,
        command.arguments.deep_view() == connect_arguments(ssid@),
{
    let mut arguments: Vec<String> = Vec::new();
    arguments.push("device".to_owned());
    arguments.push("wifi".to_owned());
    arguments.push("connect".to_owned());
    arguments.push(ssid.to_owned());
    proof {
        assert(arguments.deep_view() =~= connect_arguments(ssid@));
    }
    HelperCommand { program: "nmcli".to_owned(), arguments }
}

/// The outcome of joining: success once the helper has run, whatever it
/// reported; the launch error, with the system's message, if it could not
/// be started.
pub fn connect_outcome(launch: Result<(), String>) -> (outcome: Result<(), ClientError>)
    ensures
        match launch {
            Ok(_) => outcome is Ok,
            Err(message) => outcome matches Err(error) && error@ == ClientErrorView::Launch(
                message@,
            ),
        },
{
    match launch {
        Ok(_) => Ok(()),
        Err(message) => Err(ClientError::Launch(message)),
    }
}

/// The wording of an error.
pub open spec fn error_message(error: ClientErrorView) -> Seq<char> {
    match error {
        ClientErrorView::Bus(message) => message,
        ClientErrorView::Unexpected => "Unexpected reply"@,
        ClientErrorView::DeviceNotFound(interface) => "Device with interface '"@ + interface
            + "' not found"@,
        ClientErrorView::Launch(message) => "Failed to connect: "@ + message,
    }
}

impl ClientError {
    /// The error in words.
    pub fn message(&self) -> (text: String)
        ensures
            text@ == error_message(self@),
    {
        match self {
            ClientError::Bus(message) => message.clone(),
            ClientError::Unexpected => "Unexpected reply".to_owned(),
            ClientError::DeviceNotFound(interface) => {
                let mut text = "Device with interface '".to_owned();
                text.append(interface.as_str());
                text.append("' not found");
                text
            },
            ClientError::Launch(message) => {
                let mut text = "Failed to connect: ".to_owned();
                text.append(message.as_str());
                text
            },
        }
    }
}

} // verus!
