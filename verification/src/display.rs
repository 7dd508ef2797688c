//! The text in which a state is shown: one line for each access and for each
//! binding.

use crate::abs_addr::{AbsAddr, Addr, AddrView};
use crate::access::Access;
use crate::access_path::{
    offsets_view, AccessPath, Offset, OffsetView, PathView, Root, RootView, StructKey,
    StructKeyView,
};
use crate::cache::{FunctionEntry, SummaryCache};
use crate::path_map::AccessPathMap;
use crate::state::ReadWriteSetState;
use crate::types::{lemma_struct_view, types_view, PrimitiveType, Type, TypeView};
use vstd::prelude::*;
use vstd::string::*;

verus! {

/// The digit `d`.
pub open spec fn digit(d: nat) -> Seq<char> {
    if d == 0 {
        "0"@
    } else if d == 1 {
        "1"@
    } else if d == 2 {
        "2"@
    } else if d == 3 {
        "3"@
    } else if d == 4 {
        "4"@
    } else if d == 5 {
        "5"@
    } else if d == 6 {
        "6"@
    } else if d == 7 {
        "7"@
    } else if d == 8 {
        "8"@
    } else {
        "9"@
    }
}

/// The number `n` in decimal digits.
pub open spec fn decimal(n: nat) -> Seq<char>
    decreases n,
{
    if n < 10 {
        digit(n)
    } else {
        decimal(n / 10) + digit(n % 10)
    }
}

/// The name of a type without components.
pub open spec fn render_primitive(p: PrimitiveType) -> Seq<char> {
    match p {
        PrimitiveType::Bool => "bool"@,
        PrimitiveType::U8 => "u8"@,
        PrimitiveType::U64 => "u64"@,
        PrimitiveType::U128 => "u128"@,
        PrimitiveType::Address => "address"@,
        PrimitiveType::Signer => "signer"@,
    }
}

/// The type `t` as text: `vector<..>`, `module::struct<..>` with the
/// numbers of the module and of the struct, `#` and its index for a type
/// parameter.
pub open spec fn render_type(t: TypeView) -> Seq<char>
    decreases t, 0nat,
{
    match t {
        TypeView::Primitive(p) => render_primitive(p),
        TypeView::Vector(elem) => "vector<"@ + render_type(*elem) + ">"@,
        TypeView::Struct(m, s, args) => decimal(m.0 as nat) + "::"@ + decimal(s.0 as nat) + "<"@
            + render_types(args, args.len()) + ">"@,
        TypeView::TypeParameter(idx) => "#"@ + decimal(idx as nat),
    }
}

/// The first `n` types of `ts`, separated by commas.
pub open spec fn render_types(ts: Seq<TypeView>, n: nat) -> Seq<char>
    decreases ts, n,
{
    if n == 0 || n > ts.len() {
        Seq::empty()
    } else if n == 1 {
        render_type(ts[0])
    } else {
        render_types(ts, (n - 1) as nat) + ", "@ + render_type(ts[n - 1])
    }
}

/// The resource `key` as text.
pub open spec fn render_key(key: StructKeyView) -> Seq<char> {
    decimal(key.module.0 as nat) + "::"@ + decimal(key.id.0 as nat) + "<"@ + render_types(
        key.types,
        key.types.len(),
    ) + ">"@
}

/// The root `root` as text.
pub open spec fn render_root(root: RootView) -> Seq<char> {
    match root {
        RootView::Global(g) => "@"@ + decimal(g.address as nat) + "/"@ + render_key(g.resource),
        RootView::Formal(i) => "Formal("@ + decimal(i as nat) + ")"@,
        RootView::Local(i) => "Local("@ + decimal(i as nat) + ")"@,
        RootView::Return(i) => "Ret("@ + decimal(i as nat) + ")"@,
    }
}

/// The offset `offset` as text.
pub open spec fn render_offset(offset: OffsetView) -> Seq<char> {
    match offset {
        OffsetView::Field(f) => decimal(f as nat),
        OffsetView::Global(k) => render_key(k),
        OffsetView::VectorIndex => "[_]"@,
        OffsetView::AddressConstant => "@"@,
    }
}

/// The first `n` offsets of `offsets`, each behind a slash.
pub open spec fn render_offsets(offsets: Seq<OffsetView>, n: nat) -> Seq<char>
    decreases n,
{
    if n == 0 || n > offsets.len() {
        Seq::empty()
    } else {
        render_offsets(offsets, (n - 1) as nat) + "/"@ + render_offset(offsets[n - 1])
    }
}

/// The path `p` as text: its root, then its offsets.
pub open spec fn render_path(p: PathView) -> Seq<char> {
    render_root(p.root) + render_offsets(p.offsets, p.offsets.len())
}

/// The name of the access `a`.
pub open spec fn render_access(a: Access) -> Seq<char> {
    match a {
        Access::Borrow => "Borrow"@,
        Access::Read => "Read"@,
        Access::Write => "Write"@,
        Access::ReadWriteBorrow => "ReadWriteBorrow"@,
    }
}

/// The address `a` as text.
pub open spec fn render_addr(a: AddrView) -> Seq<char> {
    match a {
        AddrView::Footprint(p) => render_path(p),
        AddrView::Constant(c) => "@"@ + decimal(c as nat),
    }
}

/// The first `n` addresses of `addrs`, separated by commas.
pub open spec fn render_addrs(addrs: Seq<AddrView>, n: nat) -> Seq<char>
    decreases n,
{
    if n == 0 || n > addrs.len() {
        Seq::empty()
    } else if n == 1 {
        render_addr(addrs[0])
    } else {
        render_addrs(addrs, (n - 1) as nat) + ", "@ + render_addr(addrs[n - 1])
    }
}

/// The first `n` accesses of `pairs`, one line each.
pub open spec fn render_access_lines(pairs: Seq<(PathView, Access)>, n: nat) -> Seq<char>
    decreases n,
{
    if n == 0 || n > pairs.len() {
        Seq::empty()
    } else {
        render_access_lines(pairs, (n - 1) as nat) + render_path(pairs[n - 1].0) + ": "@
            + render_access(pairs[n - 1].1) + "\n"@
    }
}

/// The first `n` bindings of `pairs`, one line each.
pub open spec fn render_local_lines(pairs: Seq<(PathView, Seq<AddrView>)>, n: nat) -> Seq<char>
    decreases n,
{
    if n == 0 || n > pairs.len() {
        Seq::empty()
    } else {
        render_local_lines(pairs, (n - 1) as nat) + render_path(pairs[n - 1].0) + ": {"@
            + render_addrs(pairs[n - 1].1, pairs[n - 1].1.len()) + "}\n"@
    }
}

/// A state as text: its accesses, then its bindings.
pub open spec fn render_state(
    accesses: Seq<(PathView, Access)>,
    locals: Seq<(PathView, Seq<AddrView>)>,
) -> Seq<char> {
    "Accesses:\n"@ + render_access_lines(accesses, accesses.len()) + "Locals:\n"@
        + render_local_lines(locals, locals.len())
}

/// The values of a list of addresses, in the order of the list.
pub open spec fn addr_views(addrs: Seq<Addr>) -> Seq<AddrView> {
    Seq::new(addrs.len(), |i: int| addrs[i]@)
}

/// The bindings of a map with the addresses of each in the order in which
/// the map holds them.
pub open spec fn local_listing(locals: AccessPathMap<AbsAddr>) -> Seq<(PathView, Seq<AddrView>)> {
    Seq::new(
        locals.entries@.len(),
        |i: int| (locals.entries@[i].path@, addr_views(locals.entries@[i].value.addrs@)),
    )
}

fn digit_text(d: u8) -> (r: &'static str)
    requires
        d < 10,
    ensures
        r@ == digit(d as nat),
{
    match d {
        0 => "0",
        1 => "1",
        2 => "2",
        3 => "3",
        4 => "4",
        5 => "5",
        6 => "6",
        7 => "7",
        8 => "8",
        _ => "9",
    }
}

/// Appends the number `n` in decimal digits.
pub fn write_decimal(out: &mut String, n: u128)
    ensures
        final(out)@ == old(out)@ + decimal(n as nat),
    decreases n,
{
    if n >= 10 {
        write_decimal(out, n / 10);
    }
    out.append(digit_text((n % 10) as u8));
    assert(out@ =~= old(out)@ + decimal(n as nat));
}

/// Appends the type `t`.
pub fn write_type(out: &mut String, t: &Type)
    ensures
        final(out)@ == old(out)@ + render_type(t@),
    decreases t,
{
    match t {
        Type::Primitive(p) => {
            let name = match p {
                PrimitiveType::Bool => "bool",
                PrimitiveType::U8 => "u8",
                PrimitiveType::U64 => "u64",
                PrimitiveType::U128 => "u128",
                PrimitiveType::Address => "address",
                PrimitiveType::Signer => "signer",
            };
            out.append(name);
        },
        Type::Vector(elem) => {
            out.append("vector<");
            write_type(out, &**elem);
            out.append(">");
            assert(out@ =~= old(out)@ + render_type(t@));
        },
        Type::Struct(m, s, args) => {
            proof {
                lemma_struct_view(*m, *s, *args);
            }
            write_decimal(out, m.0 as u128);
            out.append("::");
            write_decimal(out, s.0 as u128);
            out.append("<");
            write_types(out, args);
            out.append(">");
            assert(out@ =~= old(out)@ + render_type(t@));
        },
        Type::TypeParameter(idx) => {
            out.append("#");
            write_decimal(out, *idx as u128);
            assert(out@ =~= old(out)@ + render_type(t@));
        },
    }
}

/// Appends the types `ts`, separated by commas.
pub fn write_types(out: &mut String, ts: &Vec<Type>)
    ensures
        final(out)@ == old(out)@ + render_types(types_view(ts@), ts@.len()),
    decreases ts,
{
    let mut i: usize = 0;
    assert(out@ =~= old(out)@ + render_types(types_view(ts@), 0));
    while i < ts.len()
        invariant
            i <= ts.len(),
            out@ == old(out)@ + render_types(types_view(ts@), i as nat),
        decreases ts.len() - i,
    {
        if i > 0 {
            out.append(", ");
        }
        write_type(out, &ts[i]);
        assert(types_view(ts@)[i as int] == ts@[i as int]@);
        assert(out@ =~= old(out)@ + render_types(types_view(ts@), (i + 1) as nat));
        i += 1;
    }
}

/// Appends the resource `key`.
pub fn write_key(out: &mut String, key: &StructKey)
    ensures
        final(out)@ == old(out)@ + render_key(key@),
{
    write_decimal(out, key.module.0 as u128);
    out.append("::");
    write_decimal(out, key.id.0 as u128);
    out.append("<");
    write_types(out, &key.types);
    out.append(">");
    assert(out@ =~= old(out)@ + render_key(key@));
}

/// Appends the path `path`.
pub fn write_path(out: &mut String, path: &AccessPath)
    ensures
        final(out)@ == old(out)@ + render_path(path@),
{
    match &path.root {
        Root::Global(g) => {
            out.append("@");
            write_decimal(out, g.address);
            out.append("/");
            write_key(out, &g.resource);
        },
        Root::Formal(i) => {
            out.append("Formal(");
            write_decimal(out, *i as u128);
            out.append(")");
        },
        Root::Local(i) => {
            out.append("Local(");
            write_decimal(out, *i as u128);
            out.append(")");
        },
        Root::Return(i) => {
            out.append("Ret(");
            write_decimal(out, *i as u128);
            out.append(")");
        },
    }
    assert(out@ =~= old(out)@ + render_root(path@.root));
    let ghost offsets = path@.offsets;
    let mut i: usize = 0;
    assert(out@ =~= old(out)@ + render_root(path@.root) + render_offsets(offsets, 0));
    while i < path.offsets.len()
        invariant
            i <= path.offsets.len(),
            offsets == offsets_view(path.offsets@),
            out@ == old(out)@ + render_root(path@.root) + render_offsets(offsets, i as nat),
        decreases path.offsets.len() - i,
    {
        out.append("/");
        match &path.offsets[i] {
            Offset::Field(f) => {
                write_decimal(out, *f as u128);
            },
            Offset::Global(k) => {
                write_key(out, k);
            },
            Offset::VectorIndex => {
                out.append("[_]");
            },
            Offset::AddressConstant => {
                out.append("@");
            },
        }
        assert(offsets[i as int] == path.offsets@[i as int]@);
        assert(out@ =~= old(out)@ + render_root(path@.root) + render_offsets(
            offsets,
            (i + 1) as nat,
        ));
        i += 1;
    }
    assert(out@ =~= old(out)@ + render_path(path@));
}

/// Appends the addresses of `value`, separated by commas.
pub fn write_addrs(out: &mut String, value: &AbsAddr)
    ensures
        final(out)@ == old(out)@ + render_addrs(addr_views(value.addrs@), value.addrs@.len()),
{
    let ghost addrs = addr_views(value.addrs@);
    let mut i: usize = 0;
    assert(out@ =~= old(out)@ + render_addrs(addrs, 0));
    while i < value.addrs.len()
        invariant
            i <= value.addrs.len(),
            addrs == addr_views(value.addrs@),
            out@ == old(out)@ + render_addrs(addrs, i as nat),
        decreases value.addrs.len() - i,
    {
        if i > 0 {
            out.append(", ");
        }
        match &value.addrs[i] {
            Addr::Footprint(p) => {
                write_path(out, p);
            },
            Addr::Constant(c) => {
                out.append("@");
                write_decimal(out, *c);
            },
        }
        assert(addrs[i as int] == value.addrs@[i as int]@);
        assert(out@ =~= old(out)@ + render_addrs(addrs, (i + 1) as nat));
        i += 1;
    }
}

impl ReadWriteSetState {
    /// The state as text: under `Accesses:` one line for each access, a
    /// path and the kind of the access; under `Locals:` one line for each
    /// binding, a path and the addresses bound to it.
    pub fn display(&self) -> (r: String)
        ensures
            r@ == render_state(self.accesses.pairs(), local_listing(self.locals)),
    {
        let mut out = String::new();
        out.append("Accesses:\n");
        let ghost accesses = self.accesses.pairs();
        let mut i: usize = 0;
        assert(out@ =~= "Accesses:\n"@ + render_access_lines(accesses, 0));
        while i < self.accesses.entries.len()
            invariant
                i <= self.accesses.entries.len(),
                accesses == self.accesses.pairs(),
                out@ == "Accesses:\n"@ + render_access_lines(accesses, i as nat),
            decreases self.accesses.entries.len() - i,
        {
            write_path(&mut out, &self.accesses.entries[i].path);
            out.append(": ");
            let name = match self.accesses.entries[i].value {
                Access::Borrow => "Borrow",
                Access::Read => "Read",
                Access::Write => "Write",
                Access::ReadWriteBorrow => "ReadWriteBorrow",
            };
            out.append(name);
            out.append("\n");
            assert(out@ =~= "Accesses:\n"@ + render_access_lines(accesses, (i + 1) as nat));
            i += 1;
        }
        out.append("Locals:\n");
        let ghost head = "Accesses:\n"@ + render_access_lines(accesses, accesses.len())
            + "Locals:\n"@;
        let ghost locals = local_listing(self.locals);
        let mut j: usize = 0;
        assert(out@ =~= head + render_local_lines(locals, 0));
        while j < self.locals.entries.len()
            invariant
                j <= self.locals.entries.len(),
                locals == local_listing(self.locals),
                out@ == head + render_local_lines(locals, j as nat),
            decreases self.locals.entries.len() - j,
        {
            write_path(&mut out, &self.locals.entries[j].path);
            out.append(": {");
            write_addrs(&mut out, &self.locals.entries[j].value);
            out.append("}\n");
            assert(out@ =~= head + render_local_lines(locals, (j + 1) as nat));
            j += 1;
        }
        out
    }
}

/// The text of the summary of a procedure, to be shown in front of its
/// first instruction: the text of `summary` where `code_offset` is 0 and the
/// procedure has a summary, nothing otherwise.
pub fn format_read_write_set_annotation(
    summary: Option<&ReadWriteSetState>,
    code_offset: u16,
) -> (r: Option<String>)
    ensures
        match r {
            Some(text) => code_offset == 0 && summary is Some && text@ == render_state(
                summary->Some_0.accesses.pairs(),
                local_listing(summary->Some_0.locals),
            ),
            None => code_offset != 0 || summary is None,
        },
{
    if code_offset != 0 {
        return None;
    }
    match summary {
        Some(state) => Some(state.display()),
        None => None,
    }
}

/// The text of the first `n` functions of `fs`: for each function that has
/// a summary, a line with its name, then the text of its summary and an
/// empty line.
pub open spec fn render_report(fs: Seq<FunctionEntry>, n: nat) -> Seq<char>
    decreases n,
{
    if n == 0 || n > fs.len() {
        Seq::empty()
    } else {
        render_report(fs, (n - 1) as nat) + match fs[n - 1].summary {
            Some(s) => fs[n - 1].module_name@ + "::"@ + fs[n - 1].name@ + "\n"@ + render_state(
                s.accesses.pairs(),
                local_listing(s.locals),
            ) + "\n"@,
            None => Seq::empty(),
        }
    }
}

/// The summaries of the functions of `cache` as text, in the order of the
/// cache.
pub fn read_write_set_report(cache: &SummaryCache) -> (r: String)
    ensures
        r@ == render_report(cache.functions@, cache.functions@.len()),
{
    let mut out = String::new();
    let mut i: usize = 0;
    assert(out@ =~= render_report(cache.functions@, 0));
    while i < cache.functions.len()
        invariant
            i <= cache.functions.len(),
            out@ == render_report(cache.functions@, i as nat),
        decreases cache.functions.len() - i,
    {
        match &cache.functions[i].summary {
            Some(s) => {
                out.append(cache.functions[i].module_name.as_str());
                out.append("::");
                out.append(cache.functions[i].name.as_str());
                out.append("\n");
                let text = s.display();
                out.append(text.as_str());
                out.append("\n");
            },
            None => {},
        }
        assert(out@ =~= render_report(cache.functions@, (i + 1) as nat));
        i += 1;
    }
    out
}

} // verus!
