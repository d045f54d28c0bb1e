//! The hook registry: token-identified registrations of user callbacks
//! for engine trap conditions, and the verified decision of which tokens
//! fire for a given event. The callables themselves live outside the
//! verified core, keyed by the tokens handed out at registration.

use vstd::prelude::*;

verus! {

/// Memory-access hook kind bits.
pub const HOOK_MEM_READ_UNMAPPED: u32 = 0x10;

pub const HOOK_MEM_WRITE_UNMAPPED: u32 = 0x20;

pub const HOOK_MEM_FETCH_UNMAPPED: u32 = 0x40;

pub const HOOK_MEM_READ_PROT: u32 = 0x80;

pub const HOOK_MEM_WRITE_PROT: u32 = 0x100;

pub const HOOK_MEM_FETCH_PROT: u32 = 0x200;

pub const HOOK_MEM_READ: u32 = 0x400;

pub const HOOK_MEM_WRITE: u32 = 0x800;

pub const HOOK_MEM_FETCH: u32 = 0x1000;

pub const HOOK_MEM_READ_AFTER: u32 = 0x2000;

/// The union of every plain memory-access kind.
pub const HOOK_MEM_ALL: u32 = 0x1ff0;

/// The kinds a memory hook may be registered for: every memory-access
/// kind plus read-after-access.
pub const HOOK_MEM_VALID_MASK: u32 = 0x3ff0;

/// The two x86 system-call instructions a syscall hook can trap.
#[allow(non_camel_case_types)]
#[derive(Clone, Copy, PartialEq, Eq, Structural, Debug)]
pub enum InsnSysX86 {
    SYSCALL,
    SYSENTER,
}

/// What a registration traps: a kind, with the memory kinds' bit mask and
/// the syscall instruction where they apply.
#[derive(Clone, Copy, PartialEq, Eq, Structural, Debug)]
pub enum HookKind {
    Code,
    Block,
    Mem(u32),
    Intr,
    InsnInvalid,
    InsnIn,
    InsnOut,
    InsnSys(InsnSysX86),
}

/// One registration: its engine token, its kind, and its address range.
/// A range whose begin exceeds its end means the whole address space.
#[derive(Clone, Copy, PartialEq, Eq, Structural, Debug)]
pub struct HookReg {
    pub token: u64,
    pub kind: HookKind,
    pub begin: u64,
    pub end: u64,
}

/// One trap event, carrying the address or access kind the engine saw.
#[derive(Clone, Copy, PartialEq, Eq, Structural, Debug)]
pub enum HookEvent {
    Code(u64),
    Block(u64),
    Mem(u32, u64),
    Intr,
    InsnInvalid,
    InsnIn,
    InsnOut,
    InsnSys(InsnSysX86, u64),
}

/// The registration's range admits `a`: an inverted range means every
/// address, else the closed range `[begin, end]`.
pub open spec fn hook_in_range(h: HookReg, a: u64) -> bool {
    h.begin > h.end || (h.begin <= a && a <= h.end)
}

/// Whether registration `h` fires for event `ev`.
pub open spec fn hook_matches(h: HookReg, ev: HookEvent) -> bool {
    match (h.kind, ev) {
        (HookKind::Code, HookEvent::Code(a)) => hook_in_range(h, a),
        (HookKind::Block, HookEvent::Block(a)) => hook_in_range(h, a),
        (HookKind::Mem(mask), HookEvent::Mem(access, a)) => mask & access != 0 && hook_in_range(
            h,
            a,
        ),
        (HookKind::Intr, HookEvent::Intr) => true,
        (HookKind::InsnInvalid, HookEvent::InsnInvalid) => true,
        (HookKind::InsnIn, HookEvent::InsnIn) => true,
        (HookKind::InsnOut, HookEvent::InsnOut) => true,
        (HookKind::InsnSys(k), HookEvent::InsnSys(k2, a)) => k == k2 && hook_in_range(h, a),
        _ => false,
    }
}

/// The tokens of the registrations firing for `ev`, in registration
/// order.
pub open spec fn hook_select(s: Seq<HookReg>, ev: HookEvent) -> Seq<u64>
    decreases s.len(),
{
    if s.len() == 0 {
        Seq::empty()
    } else {
        (if hook_matches(s[0], ev) {
            seq![s[0].token]
        } else {
            Seq::empty()
        }) + hook_select(s.drop_first(), ev)
    }
}

/// The registry with every registration carrying `token` removed.
pub open spec fn hooks_remove(s: Seq<HookReg>, token: u64) -> Seq<HookReg>
    decreases s.len(),
{
    if s.len() == 0 {
        Seq::empty()
    } else {
        (if s[0].token == token {
            Seq::empty()
        } else {
            seq![s[0]]
        }) + hooks_remove(s.drop_first(), token)
    }
}

/// Hook removal is final: once `token` is removed from a registry, no
/// event selects it any more, and removing it again changes nothing.
pub proof fn lemma_removed_token_never_selected(s: Seq<HookReg>, token: u64, ev: HookEvent)
    ensures
        !hook_select(hooks_remove(s, token), ev).contains(token),
        hooks_remove(hooks_remove(s, token), token) == hooks_remove(s, token),
    decreases s.len(),
{
    if s.len() > 0 {
        let rest = s.drop_first();
        lemma_removed_token_never_selected(rest, token, ev);
        let removed = hooks_remove(s, token);
        if s[0].token == token {
            assert(removed =~= hooks_remove(rest, token));
        } else {
            assert(removed =~= seq![s[0]] + hooks_remove(rest, token));
            assert(removed[0] == s[0]);
            assert(removed.drop_first() =~= hooks_remove(rest, token));
            let sel = hook_select(removed, ev);
            if hook_matches(removed[0], ev) {
                assert(sel =~= seq![s[0].token] + hook_select(hooks_remove(rest, token), ev));
                assert forall|j: int| 0 <= j < sel.len() implies sel[j] != token by {
                    if j > 0 {
                        assert(sel[j] == hook_select(hooks_remove(rest, token), ev)[j - 1]);
                        assert(hook_select(hooks_remove(rest, token), ev).contains(sel[j])
                            == exists|m: int|
                            0 <= m < hook_select(hooks_remove(rest, token), ev).len()
                                && hook_select(hooks_remove(rest, token), ev)[m] == sel[j]);
                    }
                }
                if sel.contains(token) {
                    let j = choose|j: int| 0 <= j < sel.len() && sel[j] == token;
                    assert(hook_select(hooks_remove(rest, token), ev)[j - 1] == token);
                    assert(hook_select(hooks_remove(rest, token), ev).contains(token));
                }
            } else {
                assert(sel =~= hook_select(hooks_remove(rest, token), ev));
            }
            assert(hooks_remove(removed, token) =~= seq![s[0]] + hooks_remove(
                hooks_remove(rest, token),
                token,
            ));
            assert(hooks_remove(removed, token) =~= removed);
        }
    }
}

/// Whether the registration's range admits `a`.
pub fn in_range(h: &HookReg, a: u64) -> (r: bool)
    ensures
        r == hook_in_range(*h, a),
{
    h.begin > h.end || (h.begin <= a && a <= h.end)
}

/// Whether registration `h` fires for event `ev`.
pub fn matches_event(h: &HookReg, ev: HookEvent) -> (r: bool)
    ensures
        r == hook_matches(*h, ev),
{
    match (h.kind, ev) {
        (HookKind::Code, HookEvent::Code(a)) => in_range(h, a),
        (HookKind::Block, HookEvent::Block(a)) => in_range(h, a),
        (HookKind::Mem(mask), HookEvent::Mem(access, a)) => mask & access != 0 && in_range(h, a),
        (HookKind::Intr, HookEvent::Intr) => true,
        (HookKind::InsnInvalid, HookEvent::InsnInvalid) => true,
        (HookKind::InsnIn, HookEvent::InsnIn) => true,
        (HookKind::InsnOut, HookEvent::InsnOut) => true,
        (HookKind::InsnSys(k), HookEvent::InsnSys(k2, a)) => k == k2 && in_range(h, a),
        _ => false,
    }
}

/// The tokens of the registrations firing for `ev`, in order.
pub fn select_hooks(hooks: &Vec<HookReg>, ev: HookEvent) -> (r: Vec<u64>)
    ensures
        r@ == hook_select(hooks@, ev),
{
    let ghost s = hooks@;
    let n = hooks.len();
    let mut result: Vec<u64> = Vec::new();
    let mut i: usize = 0;
    proof {
        assert(s.skip(0) =~= s);
        assert(result@ + hook_select(s, ev) =~= hook_select(s, ev));
    }
    while i < n
        invariant
            i <= n,
            n == hooks@.len(),
            s == hooks@,
            hook_select(s, ev) == result@ + hook_select(s.skip(i as int), ev),
        decreases n - i,
    {
        proof {
            assert(s.skip(i as int) =~= seq![s[i as int]] + s.skip(i as int + 1));
            assert(s.skip(i as int)[0] == s[i as int]);
            assert(s.skip(i as int).drop_first() =~= s.skip(i as int + 1));
        }
        let ghost before = result@;
        let h = hooks[i];
        if matches_event(&h, ev) {
            result.push(h.token);
        }
        proof {
            assert(result@ =~= before + (if hook_matches(s[i as int], ev) {
                seq![s[i as int].token]
            } else {
                Seq::<u64>::empty()
            }));
            assert(before + ((if hook_matches(s[i as int], ev) {
                seq![s[i as int].token]
            } else {
                Seq::<u64>::empty()
            }) + hook_select(s.skip(i as int + 1), ev)) =~= result@ + hook_select(
                s.skip(i as int + 1),
                ev,
            ));
        }
        i += 1;
    }
    proof {
        assert(s.skip(n as int) =~= Seq::<HookReg>::empty());
        assert(hook_select(s, ev) =~= result@);
    }
    result
}

/// Drop every registration carrying `token`; reports whether any did.
pub fn remove_hook_token(hooks: &mut Vec<HookReg>, token: u64) -> (found: bool)
    ensures
        final(hooks)@ == hooks_remove(old(hooks)@, token),
        found == exists|j: int| 0 <= j < old(hooks)@.len() && old(hooks)@[j].token == token,
{
    let ghost s = hooks@;
    let n = hooks.len();
    let mut result: Vec<HookReg> = Vec::new();
    let mut found = false;
    let mut i: usize = 0;
    proof {
        assert(s.skip(0) =~= s);
        assert(result@ + hooks_remove(s, token) =~= hooks_remove(s, token));
    }
    while i < n
        invariant
            i <= n,
            n == hooks@.len(),
            s == hooks@,
            hooks_remove(s, token) == result@ + hooks_remove(s.skip(i as int), token),
            found == exists|j: int| 0 <= j < i && s[j].token == token,
        decreases n - i,
    {
        proof {
            assert(s.skip(i as int) =~= seq![s[i as int]] + s.skip(i as int + 1));
            assert(s.skip(i as int)[0] == s[i as int]);
            assert(s.skip(i as int).drop_first() =~= s.skip(i as int + 1));
        }
        let ghost before = result@;
        let h = hooks[i];
        if h.token == token {
            found = true;
            assert(s[i as int].token == token);
        } else {
            result.push(h);
        }
        proof {
            assert(result@ =~= before + (if s[i as int].token == token {
                Seq::<HookReg>::empty()
            } else {
                seq![s[i as int]]
            }));
            assert(before + ((if s[i as int].token == token {
                Seq::<HookReg>::empty()
            } else {
                seq![s[i as int]]
            }) + hooks_remove(s.skip(i as int + 1), token)) =~= result@ + hooks_remove(
                s.skip(i as int + 1),
                token,
            ));
        }
        i += 1;
    }
    proof {
        assert(s.skip(n as int) =~= Seq::<HookReg>::empty());
        assert(hooks_remove(s, token) =~= result@);
    }
    *hooks = result;
    found
}

} // verus!
