use vstd::prelude::*;

use crate::address::Address;

verus! {

/// Tag byte identifying an admin task-cancel request in instruction data.
pub const ADMIN_TASK_CANCEL_TAG: u8 = 6;

/// An account a ledger instruction touches, with its access flags.
#[derive(Clone, Copy, Debug, PartialEq, Eq, Structural)]
pub struct AccountMeta {
    pub pubkey: Address,
    pub is_signer: bool,
    pub is_writable: bool,
}

/// One ledger instruction: the program to invoke, the accounts it touches,
/// and its opaque data payload.
#[derive(Clone, Debug)]
pub struct Instruction {
    pub program_id: Address,
    pub accounts: Vec<AccountMeta>,
    pub data: Vec<u8>,
}

/// Build the instruction that cancels a task with admin privilege: the
/// admin signs and is written (for the refund), the config is read to check
/// authority, and the task record is written.
pub fn admin_task_cancel(program_id: Address, admin: Address, config: Address, task: Address) -> (r:
    Instruction)
    ensures
        r.program_id == program_id,
        r.accounts@ == seq![
            AccountMeta { pubkey: admin, is_signer: true, is_writable: true },
            AccountMeta { pubkey: config, is_signer: false, is_writable: false },
            AccountMeta { pubkey: task, is_signer: false, is_writable: true },
        ],
        r.data@ == seq![ADMIN_TASK_CANCEL_TAG],
{
    let mut accounts: Vec<AccountMeta> = Vec::new();
    accounts.push(AccountMeta { pubkey: admin, is_signer: true, is_writable: true });
    accounts.push(AccountMeta { pubkey: config, is_signer: false, is_writable: false });
    accounts.push(AccountMeta { pubkey: task, is_signer: false, is_writable: true });
    let mut data: Vec<u8> = Vec::new();
    data.push(ADMIN_TASK_CANCEL_TAG);
    proof {
        assert(accounts@ =~= seq![
            AccountMeta { pubkey: admin, is_signer: true, is_writable: true },
            AccountMeta { pubkey: config, is_signer: false, is_writable: false },
            AccountMeta { pubkey: task, is_signer: false, is_writable: true },
        ]);
        assert(data@ =~= seq![ADMIN_TASK_CANCEL_TAG]);
    }
    Instruction { program_id, accounts, data }
}

} // verus!
