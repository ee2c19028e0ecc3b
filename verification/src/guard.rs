//! Deletion guard: a delete control embeds the identity of the message
//! author at creation time, and only that identity may remove the reply.

use crate::dispatch::control_id_view;
use crate::num::{all_digits, dec_val, is_digit, parse_u64_digits};
use crate::text::str_to_chars;
use vstd::prelude::*;

verus! {

/// What an activation of a delete control decides.
#[derive(Clone, Copy, Debug, PartialEq, Eq, Structural)]
pub enum DeleteAction {
    /// The reply message is removed.
    Delete,
    /// The activator receives a private denial; the reply stays.
    Deny,
}

/// The author embedded in a control id: the decimal number after `del_`, if
/// the id has that shape.
pub open spec fn control_owner(id: Seq<char>) -> Option<u64> {
    if id.len() > 4 && id.subrange(0, 4) == "del_"@ && all_digits(id.skip(4)) && dec_val(
        id.skip(4),
    ) <= u64::MAX {
        Some(dec_val(id.skip(4)) as u64)
    } else {
        None
    }
}

/// Reads the author identity back out of a control id.
pub fn delete_owner(custom_id: &str) -> (r: Option<u64>)
    ensures
        r == control_owner(custom_id@),
{
    let t = str_to_chars(custom_id);
    proof {
        reveal_strlit("del_");
    }
    if t.len() <= 4 {
        return None;
    }
    if !(t[0] == 'd' && t[1] == 'e' && t[2] == 'l' && t[3] == '_') {
        proof {
            if custom_id@.subrange(0, 4) == "del_"@ {
                assert(custom_id@.subrange(0, 4)[0] == 'd');
                assert(custom_id@.subrange(0, 4)[1] == 'e');
                assert(custom_id@.subrange(0, 4)[2] == 'l');
                assert(custom_id@.subrange(0, 4)[3] == '_');
            }
        }
        return None;
    }
    proof {
        assert(custom_id@.subrange(0, 4) =~= "del_"@);
    }
    let mut k: usize = 4;
    while k < t.len()
        invariant
            4 <= k <= t@.len(),
            t@ == custom_id@,
            forall|j: int| 4 <= j < k ==> is_digit(#[trigger] t@[j]),
        decreases t@.len() - k,
    {
        let c = t[k];
        if !((c as u32) >= 48 && (c as u32) <= 57) {
            proof {
                assert(custom_id@.skip(4)[k - 4] == t@[k as int]);
            }
            return None;
        }
        k = k + 1;
    }
    proof {
        assert forall|j: int| 0 <= j < custom_id@.skip(4).len() implies is_digit(
            #[trigger] custom_id@.skip(4)[j],
        ) by {
            assert(custom_id@.skip(4)[j] == t@[j + 4]);
        }
        assert(t@.subrange(4, t@.len() as int) =~= custom_id@.skip(4));
    }
    parse_u64_digits(&t, 4, t.len())
}

/// The deletion guard itself: the embedded author may delete; anyone else is
/// denied privately and the reply stays.
pub fn delete_decision(owner_id: u64, user_id: u64) -> (a: DeleteAction)
    ensures
        a == (if owner_id == user_id {
            DeleteAction::Delete
        } else {
            DeleteAction::Deny
        }),
{
    if owner_id == user_id {
        DeleteAction::Delete
    } else {
        DeleteAction::Deny
    }
}

/// A fresh delete control records exactly its author: reading the owner back
/// from a control id built for an author gives that author.
pub proof fn lemma_control_roundtrip(author_id: u64)
    ensures
        control_owner(control_id_view(author_id)) == Some(author_id),
{
    reveal_strlit("del_");
    let id = control_id_view(author_id);
    crate::num::lemma_dec_str_digits(author_id as nat);
    crate::num::lemma_dec_roundtrip(author_id as nat);
    assert(id.subrange(0, 4) =~= "del_"@);
    assert(id.skip(4) =~= crate::num::dec_str(author_id as nat));
}

} // verus!
