//! Commands of the process page and the menu that offers them.
use vstd::prelude::*;

use super::model::{
    ABOVE_NORMAL_PRIORITY_CLASS, BELOW_NORMAL_PRIORITY_CLASS, HIGH_PRIORITY_CLASS,
    IDLE_PRIORITY_CLASS, NORMAL_PRIORITY_CLASS, REALTIME_PRIORITY_CLASS,
};
use crate::process_identity::ProcIdentity;
use crate::resource::{
    IDC_DEBUG, IDC_TERMINATE, IDM_AFFINITY, IDM_PROCCOLS, IDM_PROC_ABOVENORMAL,
    IDM_PROC_BELOWNORMAL, IDM_PROC_DEBUG, IDM_PROC_ENDTREE, IDM_PROC_HIGH, IDM_PROC_LOW,
    IDM_PROC_NORMAL, IDM_PROC_OPENFILELOCATION, IDM_PROC_REALTIME, IDM_PROC_TERMINATE,
};

verus! {

#[derive(Clone, Copy, Debug, PartialEq, Eq, Structural)]
pub enum ProcPriority {
    Low,
    BelowNormal,
    Normal,
    AboveNormal,
    High,
    Realtime,
}

#[derive(Clone, Copy, Debug, PartialEq, Eq, Structural)]
pub enum ProcCommand {
    Terminate,
    TerminateTree,
    Debug,
    OpenFileLocation,
    Affinity,
    SetPriority(ProcPriority),
    PickColumns,
}

impl ProcPriority {
    pub open spec fn id(self) -> u16 {
        match self {
            ProcPriority::Low => IDM_PROC_LOW,
            ProcPriority::BelowNormal => IDM_PROC_BELOWNORMAL,
            ProcPriority::Normal => IDM_PROC_NORMAL,
            ProcPriority::AboveNormal => IDM_PROC_ABOVENORMAL,
            ProcPriority::High => IDM_PROC_HIGH,
            ProcPriority::Realtime => IDM_PROC_REALTIME,
        }
    }

    pub fn command_id(self) -> (id: u16)
        ensures
            id == self.id(),
    {
        match self {
            ProcPriority::Low => IDM_PROC_LOW,
            ProcPriority::BelowNormal => IDM_PROC_BELOWNORMAL,
            ProcPriority::Normal => IDM_PROC_NORMAL,
            ProcPriority::AboveNormal => IDM_PROC_ABOVENORMAL,
            ProcPriority::High => IDM_PROC_HIGH,
            ProcPriority::Realtime => IDM_PROC_REALTIME,
        }
    }

    /// The priority class that the priority stands for.
    pub open spec fn class(self) -> u32 {
        match self {
            ProcPriority::Low => IDLE_PRIORITY_CLASS,
            ProcPriority::BelowNormal => BELOW_NORMAL_PRIORITY_CLASS,
            ProcPriority::Normal => NORMAL_PRIORITY_CLASS,
            ProcPriority::AboveNormal => ABOVE_NORMAL_PRIORITY_CLASS,
            ProcPriority::High => HIGH_PRIORITY_CLASS,
            ProcPriority::Realtime => REALTIME_PRIORITY_CLASS,
        }
    }

    pub fn priority_class(self) -> (class: u32)
        ensures
            class == self.class(),
    {
        match self {
            ProcPriority::Low => IDLE_PRIORITY_CLASS,
            ProcPriority::BelowNormal => BELOW_NORMAL_PRIORITY_CLASS,
            ProcPriority::Normal => NORMAL_PRIORITY_CLASS,
            ProcPriority::AboveNormal => ABOVE_NORMAL_PRIORITY_CLASS,
            ProcPriority::High => HIGH_PRIORITY_CLASS,
            ProcPriority::Realtime => REALTIME_PRIORITY_CLASS,
        }
    }
}

/// The priority that a priority class stands for; an unknown class counts as normal.
pub open spec fn priority_of(class: u32) -> ProcPriority {
    if class == IDLE_PRIORITY_CLASS {
        ProcPriority::Low
    } else if class == BELOW_NORMAL_PRIORITY_CLASS {
        ProcPriority::BelowNormal
    } else if class == ABOVE_NORMAL_PRIORITY_CLASS {
        ProcPriority::AboveNormal
    } else if class == HIGH_PRIORITY_CLASS {
        ProcPriority::High
    } else if class == REALTIME_PRIORITY_CLASS {
        ProcPriority::Realtime
    } else {
        ProcPriority::Normal
    }
}

pub fn priority_from_class(class: u32) -> (priority: ProcPriority)
    ensures
        priority == priority_of(class),
{
    if class == IDLE_PRIORITY_CLASS {
        ProcPriority::Low
    } else if class == BELOW_NORMAL_PRIORITY_CLASS {
        ProcPriority::BelowNormal
    } else if class == ABOVE_NORMAL_PRIORITY_CLASS {
        ProcPriority::AboveNormal
    } else if class == HIGH_PRIORITY_CLASS {
        ProcPriority::High
    } else if class == REALTIME_PRIORITY_CLASS {
        ProcPriority::Realtime
    } else {
        ProcPriority::Normal
    }
}

impl ProcCommand {
    pub open spec fn id(self) -> u16 {
        match self {
            ProcCommand::Terminate => IDM_PROC_TERMINATE,
            ProcCommand::TerminateTree => IDM_PROC_ENDTREE,
            ProcCommand::Debug => IDM_PROC_DEBUG,
            ProcCommand::OpenFileLocation => IDM_PROC_OPENFILELOCATION,
            ProcCommand::Affinity => IDM_AFFINITY,
            ProcCommand::SetPriority(priority) => priority.id(),
            ProcCommand::PickColumns => IDM_PROCCOLS,
        }
    }

    pub fn command_id(self) -> (id: u16)
        ensures
            id == self.id(),
    {
        match self {
            ProcCommand::Terminate => IDM_PROC_TERMINATE,
            ProcCommand::TerminateTree => IDM_PROC_ENDTREE,
            ProcCommand::Debug => IDM_PROC_DEBUG,
            ProcCommand::OpenFileLocation => IDM_PROC_OPENFILELOCATION,
            ProcCommand::Affinity => IDM_AFFINITY,
            ProcCommand::SetPriority(priority) => priority.command_id(),
            ProcCommand::PickColumns => IDM_PROCCOLS,
        }
    }

    /// Whether a control or a menu item asks for the command. Ending and debugging a process
    /// have buttons of their own.
    pub open spec fn is_asked_by(self, command_id: u16, terminate_button_id: u16) -> bool {
        ||| self == ProcCommand::Terminate && (command_id == terminate_button_id || command_id
            == IDM_PROC_TERMINATE)
        ||| command_id != terminate_button_id && self == ProcCommand::Debug && command_id
            == IDC_DEBUG
        ||| command_id != terminate_button_id && command_id == self.id()
    }

    pub fn from_command_id(command_id: u16, terminate_button_id: u16) -> (command: Option<Self>)
        ensures
            match command {
                Some(found) => found.is_asked_by(command_id, terminate_button_id),
                None => forall|other: ProcCommand|
                    !#[trigger] other.is_asked_by(command_id, terminate_button_id),
            },
    {
        if command_id == terminate_button_id || command_id == IDM_PROC_TERMINATE {
            return Some(ProcCommand::Terminate);
        }
        if command_id == IDC_DEBUG {
            return Some(ProcCommand::Debug);
        }
        match command_id {
            IDM_PROC_ENDTREE => Some(ProcCommand::TerminateTree),
            IDM_PROC_DEBUG => Some(ProcCommand::Debug),
            IDM_PROC_OPENFILELOCATION => Some(ProcCommand::OpenFileLocation),
            IDM_AFFINITY => Some(ProcCommand::Affinity),
            IDM_PROC_LOW => Some(ProcCommand::SetPriority(ProcPriority::Low)),
            IDM_PROC_BELOWNORMAL => Some(ProcCommand::SetPriority(ProcPriority::BelowNormal)),
            IDM_PROC_NORMAL => Some(ProcCommand::SetPriority(ProcPriority::Normal)),
            IDM_PROC_ABOVENORMAL => Some(ProcCommand::SetPriority(ProcPriority::AboveNormal)),
            IDM_PROC_HIGH => Some(ProcCommand::SetPriority(ProcPriority::High)),
            IDM_PROC_REALTIME => Some(ProcCommand::SetPriority(ProcPriority::Realtime)),
            IDM_PROCCOLS => Some(ProcCommand::PickColumns),
            _ => None,
        }
    }
}

/// No control or menu item asks for two commands.
pub proof fn command_ids_are_unambiguous(
    first: ProcCommand,
    second: ProcCommand,
    command_id: u16,
    terminate_button_id: u16,
)
    requires
        first.is_asked_by(command_id, terminate_button_id),
        second.is_asked_by(command_id, terminate_button_id),
    ensures
        first == second,
{
}

/// What the page has to do for a command.
#[derive(Clone, Copy, Debug, PartialEq, Eq, Structural)]
pub enum CommandAction {
    Nothing,
    PickColumns,
    Run { command: ProcCommand, identity: ProcIdentity },
}

/// Decides what a command does: the choice of columns needs the options, and everything else a
/// selected process.
pub fn handle_command(
    command_id: u16,
    selected: Option<ProcIdentity>,
    has_options: bool,
) -> (action: CommandAction)
    ensures
        match action {
            CommandAction::Nothing => forall|command: ProcCommand| #[trigger]
                command.is_asked_by(command_id, IDC_TERMINATE) ==> if command
                    == ProcCommand::PickColumns {
                    !has_options
                } else {
                    selected is None
                },
            CommandAction::PickColumns => has_options && ProcCommand::PickColumns.is_asked_by(
                command_id,
                IDC_TERMINATE,
            ),
            CommandAction::Run { command, identity } => command != ProcCommand::PickColumns
                && command.is_asked_by(command_id, IDC_TERMINATE) && selected == Some(identity),
        },
{
    match ProcCommand::from_command_id(command_id, IDC_TERMINATE) {
        None => CommandAction::Nothing,
        Some(ProcCommand::PickColumns) => {
            if has_options {
                CommandAction::PickColumns
            } else {
                proof {
                    assert forall|command: ProcCommand| #[trigger]
                        command.is_asked_by(command_id, IDC_TERMINATE) implies command
                        == ProcCommand::PickColumns by {
                        command_ids_are_unambiguous(
                            command,
                            ProcCommand::PickColumns,
                            command_id,
                            IDC_TERMINATE,
                        );
                    }
                }
                CommandAction::Nothing
            }
        },
        Some(command) => match selected {
            Some(identity) => CommandAction::Run { command, identity },
            None => {
                proof {
                    assert forall|other: ProcCommand| #[trigger]
                        other.is_asked_by(command_id, IDC_TERMINATE) implies other == command by {
                        command_ids_are_unambiguous(other, command, command_id, IDC_TERMINATE);
                    }
                }
                CommandAction::Nothing
            },
        },
    }
}

/// An item of a menu.
#[derive(Clone, Copy, Debug, PartialEq, Eq, Structural)]
pub struct MenuItem {
    pub command: ProcCommand,
    pub enabled: bool,
    pub checked: bool,
}

/// The menu of a row: commands, a submenu with the priorities, and the affinity where there is
/// more than one processor.
#[derive(Clone, Debug, PartialEq, Eq)]
pub struct ContextMenu {
    pub commands: Vec<MenuItem>,
    pub priorities: Vec<MenuItem>,
    pub affinity: Option<MenuItem>,
}

pub open spec fn plain_item(command: ProcCommand, enabled: bool) -> MenuItem {
    MenuItem { command, enabled, checked: false }
}

pub open spec fn priority_item(priority: ProcPriority, class: u32, verified: bool) -> MenuItem {
    MenuItem {
        command: ProcCommand::SetPriority(priority),
        enabled: verified,
        checked: priority == priority_of(class),
    }
}

fn item(command: ProcCommand, enabled: bool) -> (item: MenuItem)
    ensures
        item == plain_item(command, enabled),
{
    MenuItem { command, enabled, checked: false }
}

/// Builds the menu of a row. Nothing can be done to a process whose identity is not verified.
pub fn build_context_menu(
    identity: ProcIdentity,
    priority_class: u32,
    has_debugger: bool,
    processor_count: usize,
) -> (menu: ContextMenu)
    ensures
        menu.commands@ == seq![
            plain_item(ProcCommand::Terminate, identity.verified()),
            plain_item(ProcCommand::TerminateTree, identity.verified()),
            plain_item(ProcCommand::OpenFileLocation, identity.verified()),
            plain_item(ProcCommand::Debug, identity.verified() && has_debugger),
        ],
        menu.priorities@ == seq![
            priority_item(ProcPriority::Realtime, priority_class, identity.verified()),
            priority_item(ProcPriority::High, priority_class, identity.verified()),
            priority_item(ProcPriority::AboveNormal, priority_class, identity.verified()),
            priority_item(ProcPriority::Normal, priority_class, identity.verified()),
            priority_item(ProcPriority::BelowNormal, priority_class, identity.verified()),
            priority_item(ProcPriority::Low, priority_class, identity.verified()),
        ],
        menu.affinity == if processor_count > 1 {
            Some(plain_item(ProcCommand::Affinity, identity.verified()))
        } else {
            None
        },
{
    let verified = identity.is_verified();
    let current = priority_from_class(priority_class);
    let commands: Vec<MenuItem> = vec![
        item(ProcCommand::Terminate, verified),
        item(ProcCommand::TerminateTree, verified),
        item(ProcCommand::OpenFileLocation, verified),
        item(ProcCommand::Debug, verified && has_debugger),
    ];
    let order: [ProcPriority; 6] = [
        ProcPriority::Realtime,
        ProcPriority::High,
        ProcPriority::AboveNormal,
        ProcPriority::Normal,
        ProcPriority::BelowNormal,
        ProcPriority::Low,
    ];
    let ghost goal = order@.map_values(
        |priority: ProcPriority| priority_item(priority, priority_class, verified),
    );
    let mut priorities: Vec<MenuItem> = Vec::new();
    for index in 0..6usize
        invariant
            current == priority_of(priority_class),
            goal == order@.map_values(
                |priority: ProcPriority| priority_item(priority, priority_class, verified),
            ),
            priorities@ =~= goal.take(index as int),
    {
        let priority = order[index];
        priorities.push(
            MenuItem {
                command: ProcCommand::SetPriority(priority),
                enabled: verified,
                checked: priority == current,
            },
        );
    }
    let menu = ContextMenu {
        commands,
        priorities,
        affinity: if processor_count > 1 {
            Some(item(ProcCommand::Affinity, verified))
        } else {
            None
        },
    };
    assert(menu.commands@ =~= seq![
        plain_item(ProcCommand::Terminate, verified),
        plain_item(ProcCommand::TerminateTree, verified),
        plain_item(ProcCommand::OpenFileLocation, verified),
        plain_item(ProcCommand::Debug, verified && has_debugger),
    ]);
    assert(menu.priorities@ =~= seq![
        priority_item(ProcPriority::Realtime, priority_class, verified),
        priority_item(ProcPriority::High, priority_class, verified),
        priority_item(ProcPriority::AboveNormal, priority_class, verified),
        priority_item(ProcPriority::Normal, priority_class, verified),
        priority_item(ProcPriority::BelowNormal, priority_class, verified),
        priority_item(ProcPriority::Low, priority_class, verified),
    ]);
    menu
}

} // verus!
