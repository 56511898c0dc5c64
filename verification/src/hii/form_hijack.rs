//! In-place rewrites that repurpose an existing form: its title and the
//! prompt/help strings of its questions are re-pointed at new string ids
//! without changing the length of the form package.

use vstd::prelude::*;
use crate::bytes::{le16_bytes, splice_at, u16_bytes, write_at};

verus! {

/// Points the FORM opcode at `form_op` to the title string `title_id` (the
/// two bytes at +4).
pub fn rewrite_form_title(pkg: &mut [u8], form_op: usize, title_id: u16)
    requires
        form_op + 6 <= old(pkg)@.len(),
    ensures
        final(pkg)@ == splice_at(old(pkg)@, form_op + 4, le16_bytes(title_id)),
{
    let _n = pkg.len();
    let b = u16_bytes(title_id);
    write_at(pkg, form_op + 4, b.as_slice());
}

/// Points the question opcode at `q_off` to the prompt `prompt_id` (+2) and
/// the help string `help_id` (+4).
pub fn rewrite_question_strings(pkg: &mut [u8], q_off: usize, prompt_id: u16, help_id: u16)
    requires
        q_off + 6 <= old(pkg)@.len(),
    ensures
        final(pkg)@ == splice_at(
            splice_at(old(pkg)@, q_off + 2, le16_bytes(prompt_id)),
            q_off + 4,
            le16_bytes(help_id),
        ),
{
    let _n = pkg.len();
    let p = u16_bytes(prompt_id);
    write_at(pkg, q_off + 2, p.as_slice());
    let h = u16_bytes(help_id);
    write_at(pkg, q_off + 4, h.as_slice());
}

/// A rewrite keeps the package's length and changes no byte outside the
/// string-id fields it writes.
pub proof fn law_rewrites_touch_only_their_fields(
    pkg: Seq<u8>,
    form_op: int,
    title_id: u16,
    q_off: int,
    prompt_id: u16,
    help_id: u16,
)
    requires
        0 <= form_op,
        form_op + 6 <= pkg.len(),
        0 <= q_off,
        q_off + 6 <= pkg.len(),
    ensures
        ({
            let t = splice_at(pkg, form_op + 4, le16_bytes(title_id));
            let q = splice_at(splice_at(t, q_off + 2, le16_bytes(prompt_id)), q_off + 4, le16_bytes(help_id));
            &&& q.len() == pkg.len()
            &&& forall|i: int|
                0 <= i < pkg.len() && !(form_op + 4 <= i < form_op + 6) && !(q_off + 2 <= i < q_off
                    + 6) ==> #[trigger] q[i] == pkg[i]
        }),
{
}

} // verus!
