//! What the server is told on its command line.

use vstd::prelude::*;
use vstd::slice::slice_subrange;
use vstd::string::StringSliceAdditionalSpecFns;
use crate::bytes::{same_bytes, starts_with};
use crate::fs::FilePath;

verus! {

/// Who may connect.
#[derive(Clone, Copy, Debug, PartialEq, Eq, Structural)]
pub enum Bind {
    /// This machine alone, at the loopback address 127.0.0.99.
    Loopback,
    /// Anyone who reaches any IPv4 address of this machine.
    AllIpv4,
    /// Anyone who reaches any IPv6 address of this machine.
    AllIpv6,
}

/// An address to listen at, or to browse to.
#[derive(Clone, Copy, Debug, PartialEq, Eq, Structural)]
pub enum Address {
    /// 127.0.0.99
    Loopback99,
    /// 127.0.0.1
    LocalhostV4,
    /// ::1
    LocalhostV6,
    /// 0.0.0.0
    UnspecifiedV4,
    /// ::
    UnspecifiedV6,
}

impl Bind {
    /// The address to listen at.
    pub fn listen_address(self) -> (address: Address)
        ensures
            address == match self {
                Bind::Loopback => Address::Loopback99,
                Bind::AllIpv4 => Address::UnspecifiedV4,
                Bind::AllIpv6 => Address::UnspecifiedV6,
            },
    {
        match self {
            Bind::Loopback => Address::Loopback99,
            Bind::AllIpv4 => Address::UnspecifiedV4,
            Bind::AllIpv6 => Address::UnspecifiedV6,
        }
    }

    /// The address at which a browser on this machine finds the server:
    /// the address listened at, or the local host of its family where
    /// every address is listened at.
    pub fn browse_address(self) -> (address: Address)
        ensures
            address == match self {
                Bind::Loopback => Address::Loopback99,
                Bind::AllIpv4 => Address::LocalhostV4,
                Bind::AllIpv6 => Address::LocalhostV6,
            },
    {
        match self {
            Bind::Loopback => Address::Loopback99,
            Bind::AllIpv4 => Address::LocalhostV4,
            Bind::AllIpv6 => Address::LocalhostV6,
        }
    }
}

/// How the server is set up.
pub struct Settings {
    /// Whether to open a browser at start.
    pub open: bool,
    /// Whether `OPTIONS` and `PROPFIND` are answered.
    pub webdav: bool,
    pub bind: Bind,
    /// The directory that is served.
    pub root: FilePath,
}

/// The arguments taken so far.
pub struct Arguments {
    pub help: bool,
    pub open: bool,
    pub bind: Option<Bind>,
    pub root: Option<Vec<u8>>,
}

/// Arguments as contracts see them.
pub struct ArgumentsView {
    pub help: bool,
    pub open: bool,
    pub bind: Option<Bind>,
    pub root: Option<Seq<u8>>,
}

impl View for Arguments {
    type V = ArgumentsView;

    open spec fn view(&self) -> ArgumentsView {
        ArgumentsView {
            help: self.help,
            open: self.open,
            bind: self.bind,
            root: match self.root {
                Some(root) => Some(root@),
                None => None,
            },
        }
    }
}

/// What taking an argument calls for.
#[derive(Clone, Copy, Debug, PartialEq, Eq, Structural)]
pub enum Taken {
    /// Nothing.
    Quietly,
    /// The help text is to be printed.
    PrintHelp,
    /// A warning that only the last `--allow-*` flag will apply.
    WarnRepeatedAllow,
    /// The argument is a flag that is not known: it is not taken.
    UnrecognizedFlag,
    /// The argument is a second root directory: it is not taken.
    SecondRoot,
}

/// The arguments and what is called for after `argument` has been taken.
pub open spec fn taking(seen: ArgumentsView, argument: Seq<u8>) -> (ArgumentsView, Taken) {
    if argument == "--help".spec_bytes() {
        if seen.help {
            (seen, Taken::Quietly)
        } else {
            (ArgumentsView { help: true, ..seen }, Taken::PrintHelp)
        }
    } else if argument == "--open".spec_bytes() {
        (ArgumentsView { open: true, ..seen }, Taken::Quietly)
    } else if argument == "--no-open".spec_bytes() {
        (ArgumentsView { open: false, ..seen }, Taken::Quietly)
    } else if argument == "--allow-all-ipv4".spec_bytes() {
        (
            ArgumentsView { bind: Some(Bind::AllIpv4), ..seen },
            if seen.bind is Some {
                Taken::WarnRepeatedAllow
            } else {
                Taken::Quietly
            },
        )
    } else if argument == "--allow-all-ipv6".spec_bytes() {
        (
            ArgumentsView { bind: Some(Bind::AllIpv6), ..seen },
            if seen.bind is Some {
                Taken::WarnRepeatedAllow
            } else {
                Taken::Quietly
            },
        )
    } else if starts_with(argument, "--".spec_bytes()) {
        (seen, Taken::UnrecognizedFlag)
    } else if seen.root is None {
        (ArgumentsView { root: Some(argument), ..seen }, Taken::Quietly)
    } else {
        (seen, Taken::SecondRoot)
    }
}

impl Arguments {
    /// No argument taken: no help asked for, no browser to open, nothing allowed, no root.
    pub fn new() -> (arguments: Self)
        ensures
            arguments@ == (ArgumentsView { help: false, open: false, bind: None, root: None }),
    {
        Arguments { help: false, open: false, bind: None, root: None }
    }

    /// Takes the next argument of the command line.
    pub fn take(&mut self, argument: Vec<u8>) -> (taken: Taken)
        ensures
            (final(self)@, taken) == taking(old(self)@, argument@),
    {
        let arg = argument.as_slice();
        if same_bytes(arg, "--help".as_bytes()) {
            if self.help {
                Taken::Quietly
            } else {
                self.help = true;
                Taken::PrintHelp
            }
        } else if same_bytes(arg, "--open".as_bytes()) {
            self.open = true;
            Taken::Quietly
        } else if same_bytes(arg, "--no-open".as_bytes()) {
            self.open = false;
            Taken::Quietly
        } else if same_bytes(arg, "--allow-all-ipv4".as_bytes()) {
            let repeated = self.bind.is_some();
            self.bind = Some(Bind::AllIpv4);
            if repeated {
                Taken::WarnRepeatedAllow
            } else {
                Taken::Quietly
            }
        } else if same_bytes(arg, "--allow-all-ipv6".as_bytes()) {
            let repeated = self.bind.is_some();
            self.bind = Some(Bind::AllIpv6);
            if repeated {
                Taken::WarnRepeatedAllow
            } else {
                Taken::Quietly
            }
        } else if is_flag(arg) {
            Taken::UnrecognizedFlag
        } else if self.root.is_none() {
            self.root = Some(argument);
            Taken::Quietly
        } else {
            Taken::SecondRoot
        }
    }

    /// The settings that the arguments give, with `root` for the directory
    /// that is served: WebDAV is on, and where nothing was allowed only
    /// this machine may connect.
    pub fn into_settings(self, root: FilePath) -> (settings: Settings)
        ensures
            settings.open == self.open,
            settings.webdav,
            settings.bind == match self.bind {
                Some(bind) => bind,
                None => Bind::Loopback,
            },
            settings.root@ == root@,
    {
        Settings {
            open: self.open,
            webdav: true,
            bind: match self.bind {
                Some(bind) => bind,
                None => Bind::Loopback,
            },
            root,
        }
    }
}

fn is_flag(argument: &[u8]) -> (flag: bool)
    ensures
        flag == starts_with(argument@, "--".spec_bytes()),
{
    let dashes = "--".as_bytes();
    if argument.len() < dashes.len() {
        return false;
    }
    same_bytes(slice_subrange(argument, 0, dashes.len()), dashes)
}

} // verus!
