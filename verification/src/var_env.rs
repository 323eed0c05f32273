//! The per-compilation symbol table: a global table (name to label and
//! type) and a local table (name to frame-pointer offset and type), with
//! local names shadowing global ones. Local offsets grow downward from a
//! 16-byte base that is reserved for the saved frame-pointer/link-register
//! pair, and the final frame size is rounded up to the 16-byte stack
//! alignment of the target ABI.

use vstd::prelude::*;

use crate::ty::Ty;

verus! {

/// Alignment in bytes that the target ABI demands of every stack frame.
pub const STACK_ALIGNMENT: u32 = 16;

/// A declared local variable: its type and its offset in bytes below the
/// frame pointer.
#[derive(PartialEq, Eq, Debug)]
pub struct LocalVarInfo {
    pub ty: Ty,
    pub offset: u32,
}

/// A declared global variable: its type and the label of its storage.
#[derive(PartialEq, Eq, Debug)]
pub struct GlobalVarInfo {
    pub ty: Ty,
    pub label: String,
}

/// What a name resolves to: a local entry or a global entry.
#[derive(PartialEq, Eq, Debug)]
pub enum VarInfo {
    Local(LocalVarInfo),
    Global(GlobalVarInfo),
}

impl Clone for LocalVarInfo {
    /// Structural copy: the clone is equal to the original.
    fn clone(&self) -> (r: Self)
        ensures
            r == *self,
    {
        LocalVarInfo { ty: self.ty.clone(), offset: self.offset }
    }
}

impl Clone for GlobalVarInfo {
    /// Structural copy: the clone is equal to the original.
    fn clone(&self) -> (r: Self)
        ensures
            r == *self,
    {
        GlobalVarInfo { ty: self.ty.clone(), label: self.label.clone() }
    }
}

impl Clone for VarInfo {
    /// Structural copy: the clone is equal to the original.
    fn clone(&self) -> (r: Self)
        ensures
            r == *self,
    {
        match self {
            VarInfo::Local(info) => VarInfo::Local(info.clone()),
            VarInfo::Global(info) => VarInfo::Global(info.clone()),
        }
    }
}

/// First entry of `entries` whose name reads as `name`, if any.
pub open spec fn find_entry<T>(entries: Seq<(String, T)>, name: Seq<char>) -> Option<T>
    decreases entries.len(),
{
    if entries.len() == 0 {
        None
    } else if entries[0].0@ == name {
        Some(entries[0].1)
    } else {
        find_entry(entries.drop_first(), name)
    }
}

/// Sum of the sizes of the types of all entries.
pub open spec fn sum_entry_sizes(entries: Seq<(String, LocalVarInfo)>) -> nat
    decreases entries.len(),
{
    if entries.len() == 0 {
        0
    } else {
        entries[0].1.ty.spec_size() + sum_entry_sizes(entries.drop_first())
    }
}

/// Rounds `v` up to the next multiple of `alignment`; `v` itself when it is
/// already a multiple.
pub fn align_to_stack(v: u32, alignment: u32) -> (r: u32)
    requires
        alignment > 0,
        v + alignment - 1 <= u32::MAX,
    ensures
        r % alignment == 0,
        v <= r < v + alignment,
{
    proof {
        let vi = v as int;
        let a = alignment as int;
        let q = vi / a;
        vstd::arithmetic::div_mod::lemma_fundamental_div_mod(vi, a);
        vstd::arithmetic::div_mod::lemma_mod_division_less_than_divisor(vi, a);
        assert((q * a) % a == 0 && (q * a + a) % a == 0) by (nonlinear_arith)
            requires
                a > 0,
        ;
    }
    let result = v / alignment * alignment;
    if v % alignment != 0 {
        result + alignment
    } else {
        result
    }
}

/// The symbol table of one compilation, with the local half scoped to the
/// function being parsed.
pub struct VarEnvironment {
    stack_offset: u32,
    local_variables: Vec<(String, LocalVarInfo)>,
    global_variables: Vec<(String, GlobalVarInfo)>,
}

impl VarEnvironment {
    /// The declared locals, in declaration order.
    pub closed spec fn locals_seq(self) -> Seq<(String, LocalVarInfo)> {
        self.local_variables@
    }

    /// The declared globals, in declaration order.
    pub closed spec fn globals_seq(self) -> Seq<(String, GlobalVarInfo)> {
        self.global_variables@
    }

    /// The running offset counter: 16 bytes of base plus the accumulated
    /// sizes of the declared locals.
    pub closed spec fn offset_spec(self) -> u32 {
        self.stack_offset
    }

    /// The local entry a name denotes, if one is declared.
    pub open spec fn local_spec(self, name: Seq<char>) -> Option<LocalVarInfo> {
        find_entry(self.locals_seq(), name)
    }

    /// The global entry a name denotes, if one is declared.
    pub open spec fn global_spec(self, name: Seq<char>) -> Option<GlobalVarInfo> {
        find_entry(self.globals_seq(), name)
    }

    /// What resolving a name yields: the local entry when one exists
    /// (locals shadow globals), else the global entry, else nothing.
    pub open spec fn resolve_spec(self, name: Seq<char>) -> Option<VarInfo> {
        match self.local_spec(name) {
            Some(info) => Some(VarInfo::Local(info)),
            None => match self.global_spec(name) {
                Some(info) => Some(VarInfo::Global(info)),
                None => None,
            },
        }
    }

    /// Internal consistency: local names are distinct, and the offset
    /// counter equals the 16-byte base plus the sizes of all declared
    /// locals, kept low enough that rounding up cannot overflow.
    pub open spec fn wf(self) -> bool {
        &&& self.offset_spec() == 16 + sum_entry_sizes(self.locals_seq())
        &&& self.offset_spec() + STACK_ALIGNMENT - 1 <= u32::MAX
        &&& (forall|i: int, j: int|
            0 <= i < j < self.locals_seq().len() ==> self.locals_seq()[i].0@
                != self.locals_seq()[j].0@)
    }

    /// A fresh environment: no locals, no globals, offset at the base.
    pub fn new() -> (r: Self)
        ensures
            r.wf(),
            r.locals_seq() == Seq::<(String, LocalVarInfo)>::empty(),
            r.globals_seq() == Seq::<(String, GlobalVarInfo)>::empty(),
            r.offset_spec() == 16,
    {
        VarEnvironment { stack_offset: 16, local_variables: Vec::new(), global_variables: Vec::new() }
    }

    /// Usable local-variable area of the current function: the offset
    /// counter rounded up to the stack alignment.
    pub fn stack_size(&self) -> (r: u32)
        requires
            self.wf(),
        ensures
            r % 16 == 0,
            self.offset_spec() <= r < self.offset_spec() + 16,
    {
        align_to_stack(self.stack_offset, STACK_ALIGNMENT)
    }

    /// Looks `name` up among the entries of `entries`, returning the first
    /// match.
    fn find_local_entry(entries: &Vec<(String, LocalVarInfo)>, name: &String) -> (r: Option<
        LocalVarInfo,
    >)
        ensures
            r == find_entry(entries@, name@),
    {
        let n = entries.len();
        proof {
            assert(entries@.skip(0) =~= entries@);
        }
        for i in 0..n
            invariant
                n == entries@.len(),
                forall|j: int| 0 <= j < i ==> entries@[j].0@ != name@,
                find_entry(entries@, name@) == find_entry(entries@.skip(i as int), name@),
        {
            proof {
                assert(entries@.skip(i as int)[0] == entries@[i as int]);
                assert(entries@.skip(i as int).drop_first() =~= entries@.skip(i + 1));
            }
            if entries[i].0 == *name {
                return Some(entries[i].1.clone());
            }
        }
        proof {
            assert(entries@.skip(n as int) =~= Seq::<(String, LocalVarInfo)>::empty());
        }
        None
    }

    /// Looks `name` up among the global entries, returning the first match.
    fn find_global_entry(entries: &Vec<(String, GlobalVarInfo)>, name: &String) -> (r: Option<
        GlobalVarInfo,
    >)
        ensures
            r == find_entry(entries@, name@),
    {
        let n = entries.len();
        proof {
            assert(entries@.skip(0) =~= entries@);
        }
        for i in 0..n
            invariant
                n == entries@.len(),
                forall|j: int| 0 <= j < i ==> entries@[j].0@ != name@,
                find_entry(entries@, name@) == find_entry(entries@.skip(i as int), name@),
        {
            proof {
                assert(entries@.skip(i as int)[0] == entries@[i as int]);
                assert(entries@.skip(i as int).drop_first() =~= entries@.skip(i + 1));
            }
            if entries[i].0 == *name {
                return Some(entries[i].1.clone());
            }
        }
        proof {
            assert(entries@.skip(n as int) =~= Seq::<(String, GlobalVarInfo)>::empty());
        }
        None
    }

    /// Declares a local variable. Re-declaring a declared name returns the
    /// existing entry unchanged; a new name is assigned the next offset,
    /// the accumulated sizes plus the size of its own type. `None` only
    /// when the offset counter would outgrow its range.
    pub fn add_local_var(&mut self, name: &str, ty: Ty) -> (r: Option<LocalVarInfo>)
        requires
            old(self).wf(),
            ty.size_fits(),
        ensures
            final(self).wf(),
            final(self).globals_seq() == old(self).globals_seq(),
            old(self).local_spec(name@) is Some ==> r == old(self).local_spec(name@)
                && *final(self) == *old(self),
            old(self).local_spec(name@) is None && old(self).offset_spec() + ty.spec_size() + 15
                <= u32::MAX ==> {
                &&& r == Some((LocalVarInfo { ty, offset: (old(self).offset_spec() + ty.spec_size()) as u32 }))
                &&& final(self).offset_spec() == old(self).offset_spec() + ty.spec_size()
                &&& final(self).locals_seq().len() == old(self).locals_seq().len() + 1
                &&& final(self).locals_seq().take(old(self).locals_seq().len() as int) == old(
                    self,
                ).locals_seq()
                &&& final(self).locals_seq().last().0@ == name@
                &&& final(self).locals_seq().last().1 == r->Some_0
                &&& final(self).local_spec(name@) == r
            },
            old(self).local_spec(name@) is None && old(self).offset_spec() + ty.spec_size() + 15
                > u32::MAX ==> r is None && *final(self) == *old(self),
    {
        let key: String = name.to_owned();
        if let Some(var_info) = Self::find_local_entry(&self.local_variables, &key) {
            Some(var_info)
        } else {
            let size = ty.size();
            if size > u32::MAX - 15 - self.stack_offset {
                return None;
            }
            let offset = self.stack_offset + size;
            let var_info = LocalVarInfo { ty, offset };
            let entry_info = var_info.clone();
            self.local_variables.push((key, entry_info));
            self.stack_offset = offset;
            proof {
                let olds = old(self).locals_seq();
                let news = self.locals_seq();
                assert(news =~= olds.push(news.last()));
                lemma_sum_entry_sizes_push(olds, news.last());
                lemma_find_entry_push_absent(olds, news.last(), name@);
                assert(news.take(olds.len() as int) =~= olds);
                assert forall|i: int, j: int| 0 <= i < j < news.len() implies news[i].0@
                    != news[j].0@ by {
                    if j == news.len() - 1 {
                        lemma_find_entry_none_all_differ(olds, name@);
                    }
                }
            }
            Some(var_info)
        }
    }

    /// Declares a global variable. The first declaration of a name wins:
    /// a repeat returns the existing entry unchanged. A new name is
    /// labelled with the name itself.
    pub fn add_global_var(&mut self, name: &str, ty: Ty) -> (r: GlobalVarInfo)
        ensures
            final(self).locals_seq() == old(self).locals_seq(),
            final(self).offset_spec() == old(self).offset_spec(),
            old(self).wf() ==> final(self).wf(),
            old(self).global_spec(name@) is Some ==> Some(r) == old(self).global_spec(name@)
                && *final(self) == *old(self),
            old(self).global_spec(name@) is None ==> {
                &&& r.ty == ty
                &&& r.label@ == name@
                &&& final(self).globals_seq().len() == old(self).globals_seq().len() + 1
                &&& final(self).globals_seq().take(old(self).globals_seq().len() as int) == old(
                    self,
                ).globals_seq()
                &&& final(self).globals_seq().last().0@ == name@
                &&& final(self).globals_seq().last().1 == r
                &&& final(self).global_spec(name@) == Some(r)
            },
    {
        let key: String = name.to_owned();
        if let Some(var_info) = Self::find_global_entry(&self.global_variables, &key) {
            var_info
        } else {
            let label: String = name.to_owned();
            let var_info = GlobalVarInfo { ty, label };
            let entry_info = var_info.clone();
            self.global_variables.push((key, entry_info));
            proof {
                let olds = old(self).globals_seq();
                let news = self.globals_seq();
                assert(news =~= olds.push(news.last()));
                lemma_find_entry_push_absent(olds, news.last(), name@);
                assert(news.take(olds.len() as int) =~= olds);
            }
            var_info
        }
    }

    /// Resolves a name: the local entry when one exists — a local
    /// declaration shadows a global of the same name — else the global
    /// entry, else `None`, which signals an undefined variable.
    pub fn resolve(&self, name: &str) -> (r: Option<VarInfo>)
        ensures
            r == self.resolve_spec(name@),
    {
        let key: String = name.to_owned();
        if let Some(local_var_info) = Self::find_local_entry(&self.local_variables, &key) {
            Some(VarInfo::Local(local_var_info))
        } else {
            match Self::find_global_entry(&self.global_variables, &key) {
                Some(global_var_info) => Some(VarInfo::Global(global_var_info)),
                None => None,
            }
        }
    }

    /// A fresh function scope: the locals and the offset counter are
    /// reset, the accumulated globals are kept.
    pub fn new_local_scope(&self) -> (r: Self)
        ensures
            r.wf(),
            r.locals_seq() == Seq::<(String, LocalVarInfo)>::empty(),
            r.globals_seq() == self.globals_seq(),
            r.offset_spec() == 16,
    {
        let mut globals: Vec<(String, GlobalVarInfo)> = Vec::new();
        let n = self.global_variables.len();
        for i in 0..n
            invariant
                n == self.global_variables@.len(),
                globals@.len() == i,
                forall|j: int| 0 <= j < i ==> globals@[j] == self.global_variables@[j],
        {
            let entry = (self.global_variables[i].0.clone(), self.global_variables[i].1.clone());
            globals.push(entry);
        }
        proof {
            assert(globals@ =~= self.global_variables@);
        }
        VarEnvironment { stack_offset: 16, local_variables: Vec::new(), global_variables: globals }
    }
}

/// Appending an entry adds its size to the accumulated sizes.
proof fn lemma_sum_entry_sizes_push(entries: Seq<(String, LocalVarInfo)>, entry: (String, LocalVarInfo))
    ensures
        sum_entry_sizes(entries.push(entry)) == sum_entry_sizes(entries)
            + entry.1.ty.spec_size(),
    decreases entries.len(),
{
    assert(entries.push(entry)[0] == if entries.len() == 0 { entry } else { entries[0] });
    assert(sum_entry_sizes(entries.push(entry)) == entries.push(entry)[0].1.ty.spec_size()
        + sum_entry_sizes(entries.push(entry).drop_first()));
    if entries.len() == 0 {
        assert(entries.push(entry)[0] == entry);
        assert(entries.push(entry).drop_first() =~= Seq::<(String, LocalVarInfo)>::empty());
        assert(sum_entry_sizes(Seq::<(String, LocalVarInfo)>::empty()) == 0);
    } else {
        assert(entries.push(entry)[0] == entries[0]);
        assert(entries.push(entry).drop_first() =~= entries.drop_first().push(entry));
        lemma_sum_entry_sizes_push(entries.drop_first(), entry);
    }
}

/// Appending an entry leaves every other name's lookup unchanged, and a
/// name absent before is found at the new entry.
proof fn lemma_find_entry_push_absent<T>(entries: Seq<(String, T)>, entry: (String, T), name: Seq<char>)
    ensures
        entry.0@ == name && find_entry(entries, name) is None ==> find_entry(
            entries.push(entry),
            name,
        ) == Some(entry.1),
        entry.0@ != name ==> find_entry(entries.push(entry), name) == find_entry(entries, name),
        find_entry(entries, name) is Some ==> find_entry(entries.push(entry), name) == find_entry(
            entries,
            name,
        ),
    decreases entries.len(),
{
    let pushed = entries.push(entry);
    assert(pushed.len() == entries.len() + 1);
    if entries.len() == 0 {
        assert(pushed[0] == entry);
        if entry.0@ == name {
            assert(find_entry(pushed, name) == Some(entry.1));
        } else {
            assert(pushed.drop_first() =~= Seq::<(String, T)>::empty());
            assert(find_entry(pushed, name) == find_entry(pushed.drop_first(), name));
            assert(find_entry(pushed, name) is None);
        }
    } else {
        assert(pushed[0] == entries[0]);
        assert(pushed.drop_first() =~= entries.drop_first().push(entry));
        lemma_find_entry_push_absent(entries.drop_first(), entry, name);
        if entries[0].0@ == name {
            assert(find_entry(pushed, name) == Some(entries[0].1));
            assert(find_entry(entries, name) == Some(entries[0].1));
        } else {
            assert(find_entry(pushed, name) == find_entry(entries.drop_first().push(entry), name));
            assert(find_entry(entries, name) == find_entry(entries.drop_first(), name));
        }
    }
}

/// A successful lookup returns the entry of some index.
pub proof fn lemma_find_entry_some_in<T>(entries: Seq<(String, T)>, name: Seq<char>)
    requires
        find_entry(entries, name) is Some,
    ensures
        exists|i: int|
            0 <= i < entries.len() && #[trigger] entries[i].0@ == name && find_entry(
                entries,
                name,
            ) == Some(entries[i].1),
    decreases entries.len(),
{
    if entries.len() > 0 {
        if entries[0].0@ == name {
            assert(entries[0].0@ == name && find_entry(entries, name) == Some(entries[0].1));
        } else {
            lemma_find_entry_some_in(entries.drop_first(), name);
            let i = choose|i: int|
                0 <= i < entries.drop_first().len() && #[trigger] entries.drop_first()[i].0@
                    == name && find_entry(entries.drop_first(), name) == Some(
                    entries.drop_first()[i].1,
                );
            assert(entries[i + 1] == entries.drop_first()[i]);
            assert(entries[i + 1].0@ == name && find_entry(entries, name) == Some(
                entries[i + 1].1,
            ));
        }
    }
}

/// When a lookup fails, the name differs from every entry's name.
proof fn lemma_find_entry_none_all_differ<T>(entries: Seq<(String, T)>, name: Seq<char>)
    requires
        find_entry(entries, name) is None,
    ensures
        forall|i: int| 0 <= i < entries.len() ==> entries[i].0@ != name,
    decreases entries.len(),
{
    if entries.len() > 0 {
        lemma_find_entry_none_all_differ(entries.drop_first(), name);
        assert forall|i: int| 0 <= i < entries.len() implies entries[i].0@ != name by {
            if i > 0 {
                assert(entries.drop_first()[i - 1] == entries[i]);
            }
        }
    }
}

/// The frame size is 16-byte aligned and covers the sizes of all distinct
/// declared locals of the scope.
pub proof fn lemma_stack_size_bounds(env: VarEnvironment, r: u32)
    requires
        env.wf(),
        r % 16 == 0,
        env.offset_spec() <= r < env.offset_spec() + 16,
    ensures
        r >= sum_entry_sizes(env.locals_seq()),
        r >= 16,
{
}

} // verus!
