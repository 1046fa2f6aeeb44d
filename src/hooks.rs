//! Probes on kernel symbols and checks on captured register state.
use vstd::prelude::*;

verus! {

/// Largest stack frame accepted as sane, in bytes (1 MiB).
pub const MAX_FRAME_SIZE: u64 = 1048576;

/// General-purpose registers of an intercepted call.
pub struct RegisterContext {
    pub rax: u64,
    pub rbx: u64,
    pub rcx: u64,
    pub rdx: u64,
    pub rsi: u64,
    pub rdi: u64,
    pub rbp: u64,
    pub rsp: u64,
    pub r8: u64,
    pub r9: u64,
    pub r10: u64,
    pub r11: u64,
    pub r12: u64,
    pub r13: u64,
    pub r14: u64,
    pub r15: u64,
    pub rip: u64,
    pub eflags: u64,
}

#[derive(Debug, Copy, Clone, PartialEq, Eq, Structural)]
pub enum HookType {
    PreExecution,
    PostExecution,
    MemoryAccess,
    IORequest,
}

/// Whether a probe is attached, and which symbols carry probes. The table
/// of syscall handlers lives with the caller, which owns the raw function
/// pointers.
pub struct KernelInterceptor {
    active: bool,
    hooked_functions: Vec<(String, usize)>,
    safety_valve_enabled: bool,
}

/// The flags raised by a register snapshot: a non-zero `rax`, a null
/// instruction pointer.
pub open spec fn register_flags(rax: u64, rip: u64) -> Seq<Seq<char>> {
    (if rax > 0 { seq!["RAX_NON_ZERO"@] } else { seq![] }) + (if rip == 0 { seq!["NULL_INSTRUCTION_POINTER"@] } else { seq![] })
}

impl KernelInterceptor {
    pub closed spec fn is_active(&self) -> bool {
        self.active
    }

    /// The symbols that carry probes, with their probe ids.
    pub closed spec fn probes(&self) -> Seq<(Seq<char>, usize)> {
        self.hooked_functions@.map_values(|p: (String, usize)| (p.0@, p.1))
    }

    pub closed spec fn valve_enabled(&self) -> bool {
        self.safety_valve_enabled
    }

    pub fn new() -> (r: KernelInterceptor)
        ensures
            !r.is_active(),
            r.probes().len() == 0,
            r.valve_enabled(),
    {
        let r = KernelInterceptor { active: false, hooked_functions: Vec::new(), safety_valve_enabled: true };
        assert(r.probes() =~= Seq::<(Seq<char>, usize)>::empty());
        r
    }

    /// Attaches; refused when already attached.
    pub fn attach(&mut self) -> (r: Result<(), &'static str>)
        ensures
            old(self).is_active() ==> (r matches Err(e) && e@ == "Interceptor already active"@) && final(self).is_active(),
            !old(self).is_active() ==> r is Ok && final(self).is_active(),
            final(self).probes() == old(self).probes(),
            final(self).valve_enabled() == old(self).valve_enabled(),
    {
        if self.active {
            return Err("Interceptor already active");
        }
        self.active = true;
        Ok(())
    }

    /// Detaches; refused when not attached.
    pub fn detach(&mut self) -> (r: Result<(), &'static str>)
        ensures
            !old(self).is_active() ==> (r matches Err(e) && e@ == "Interceptor not active"@) && !final(self).is_active(),
            old(self).is_active() ==> r is Ok && !final(self).is_active(),
            final(self).probes() == old(self).probes(),
            final(self).valve_enabled() == old(self).valve_enabled(),
    {
        if !self.active {
            return Err("Interceptor not active");
        }
        self.active = false;
        Ok(())
    }

    /// The flags raised by `ctx`.
    pub fn inspect_registers(&self, ctx: &RegisterContext) -> (r: Vec<String>)
        ensures
            r@.map_values(|s: String| s@) == register_flags(ctx.rax, ctx.rip),
    {
        let mut flags: Vec<String> = Vec::new();
        if ctx.rax > 0 {
            flags.push(String::from_str("RAX_NON_ZERO"));
        }
        if ctx.rip == 0 {
            flags.push(String::from_str("NULL_INSTRUCTION_POINTER"));
        }
        assert(flags@.map_values(|s: String| s@) =~= register_flags(ctx.rax, ctx.rip));
        flags
    }

    /// Places a probe on `target_symbol`; its id is one more than the number
    /// of probes before it. Refused while the safety valve is off.
    pub fn inject_probe(&mut self, target_symbol: &str, hook_type: HookType) -> (r: Result<usize, String>)
        requires
            old(self).probes().len() < usize::MAX,
        ensures
            !old(self).valve_enabled() ==> (r matches Err(e) && e@ == "Safety valve disabled, injection prevented"@)
                && final(self).probes() == old(self).probes(),
            old(self).valve_enabled() ==> (r matches Ok(id) && id == old(self).probes().len() + 1
                && final(self).probes() == old(self).probes().push((target_symbol@, id))),
            final(self).is_active() == old(self).is_active(),
            final(self).valve_enabled() == old(self).valve_enabled(),
    {
        if !self.safety_valve_enabled {
            return Err(String::from_str("Safety valve disabled, injection prevented"));
        }
        let probe_id = self.hooked_functions.len() + 1;
        self.hooked_functions.push((String::from_str(target_symbol), probe_id));
        assert(self.probes() =~= old(self).probes().push((target_symbol@, probe_id)));
        Ok(probe_id)
    }

    /// A stack frame is sane when its pointer is not null and its size is
    /// at most `MAX_FRAME_SIZE`.
    pub fn validate_stack_integrity(&self, stack_ptr: u64, frame_size: u64) -> (r: bool)
        ensures
            r == (stack_ptr != 0 && frame_size <= MAX_FRAME_SIZE),
    {
        !(stack_ptr == 0 || frame_size > MAX_FRAME_SIZE)
    }

    /// Reads `size` bytes at `address` while attached (the simulated memory
    /// reads as zeros); `None` when not attached.
    pub fn read_kernel_memory(&self, address: u64, size: usize) -> (r: Option<Vec<u8>>)
        ensures
            !self.is_active() ==> r is None,
            self.is_active() ==> (r matches Some(v) && v@ == Seq::new(size as nat, |i: int| 0u8)),
    {
        if !self.active {
            return None;
        }
        let mut v: Vec<u8> = Vec::new();
        let mut i: usize = 0;
        while i < size
            invariant
                i <= size,
                v@ == Seq::new(i as nat, |j: int| 0u8),
            decreases size - i,
        {
            v.push(0u8);
            assert(v@ =~= Seq::new((i + 1) as nat, |j: int| 0u8));
            i = i + 1;
        }
        Some(v)
    }
}

} // verus!
