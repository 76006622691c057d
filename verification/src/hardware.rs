//! Hardware inspection: maps each hardware subcommand to the listing
//! tool that reports it.
use vstd::prelude::*;
use crate::cli::HardwareCmd;
use crate::cmd::Invocation;

verus! {

/// The program for `cmd`.
pub open spec fn spec_program(cmd: HardwareCmd) -> Seq<char> {
    match cmd {
        HardwareCmd::Cpu => "lscpu"@,
        HardwareCmd::Mem => "free"@,
        HardwareCmd::Gpu => "lspci"@,
        HardwareCmd::Usb => "lsusb"@,
        HardwareCmd::Pci => "lspci"@,
    }
}

/// The program arguments for `cmd`.
pub open spec fn spec_args(cmd: HardwareCmd) -> Seq<Seq<char>> {
    match cmd {
        HardwareCmd::Cpu => Seq::empty(),
        HardwareCmd::Mem => seq!["-h"@],
        HardwareCmd::Gpu => seq!["-k"@],
        HardwareCmd::Usb => Seq::empty(),
        HardwareCmd::Pci => Seq::empty(),
    }
}

/// The listing call for `cmd`.
pub fn handle(cmd: HardwareCmd) -> (r: Invocation)
    ensures
        r.program@ == spec_program(cmd),
        r.args.deep_view() == spec_args(cmd),
{
    let mut inv = match cmd {
        HardwareCmd::Cpu => Invocation::new("lscpu"),
        HardwareCmd::Mem => Invocation::new("free"),
        HardwareCmd::Gpu => Invocation::new("lspci"),
        HardwareCmd::Usb => Invocation::new("lsusb"),
        HardwareCmd::Pci => Invocation::new("lspci"),
    };
    match cmd {
        HardwareCmd::Mem => {
            inv.arg("-h");
        },
        HardwareCmd::Gpu => {
            inv.arg("-k");
        },
        HardwareCmd::Cpu => {
        },
        HardwareCmd::Usb => {
        },
        HardwareCmd::Pci => {
        },
    }
    proof {
        assert(inv.args.deep_view() =~~= spec_args(cmd));
    }
    inv
}

} // verus!
