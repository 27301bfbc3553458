//! A small builder for writing the authored tree syntax.
//!
//! The serializer accumulates text in a string buffer; nodes are
//! written either as children blocks (`name { ... }`) or as inline
//! nodes with arguments and properties. Indentation is four spaces
//! per level.
use crate::color::{push_char, spec_hex_string, BaseColorKind};
use crate::namer::{decimal_string, spec_decimal};
use vstd::prelude::*;

verus! {

broadcast use vstd::seq::group_seq_axioms;

/// Four spaces per indentation level.
pub open spec fn spec_indent_text(n: nat) -> Seq<char>
    decreases n,
{
    if n == 0 {
        Seq::empty()
    } else {
        spec_indent_text((n - 1) as nat) + seq![' ', ' ', ' ', ' ']
    }
}

/// One character of a quoted string: quotes and backslashes are
/// escaped, everything else stands for itself.
pub open spec fn spec_escape_char(c: char) -> Seq<char> {
    if c == '"' {
        seq!['\\', '"']
    } else if c == '\\' {
        seq!['\\', '\\']
    } else {
        seq![c]
    }
}

/// The body of a quoted string.
pub open spec fn spec_escape(s: Seq<char>) -> Seq<char>
    decreases s.len(),
{
    if s.len() == 0 {
        Seq::empty()
    } else {
        spec_escape(s.drop_last()) + spec_escape_char(s.last())
    }
}

/// A string written as a quoted literal.
pub open spec fn spec_quoted(s: Seq<char>) -> Seq<char> {
    seq!['"'] + spec_escape(s) + seq!['"']
}

/// Appends a quoted form of `s` to `out`.
fn write_quoted(out: &mut String, s: &str)
    ensures
        final(out)@ == old(out)@ + spec_quoted(s@),
{
    push_char(out, '"');
    let ghost base = out@;
    let n = s.unicode_len();
    let mut i: usize = 0;
    proof {
        assert(spec_escape(s@.take(0)) =~= Seq::<char>::empty());
        assert(out@ =~= base + spec_escape(s@.take(0)));
    }
    while i < n
        invariant
            n == s@.len(),
            i <= n,
            out@ == base + spec_escape(s@.take(i as int)),
        decreases n - i,
    {
        let c = s.get_char(i);
        if c == '"' {
            push_char(out, '\\');
            push_char(out, '"');
        } else if c == '\\' {
            push_char(out, '\\');
            push_char(out, '\\');
        } else {
            push_char(out, c);
        }
        proof {
            assert(s@.take(i + 1).drop_last() =~= s@.take(i as int));
            assert(s@.take(i + 1).last() == s@[i as int]);
            assert(out@ =~= base + spec_escape(s@.take(i + 1)));
        }
        i += 1;
    }
    push_char(out, '"');
    proof {
        assert(s@.take(n as int) =~= s@);
        assert(final(out)@ =~= old(out)@ + spec_quoted(s@));
    }
}

/// Writes the authored tree syntax into a string buffer.
#[derive(Debug)]
pub struct KdlSerializer {
    pub indent: usize,
    pub out: String,
}

impl KdlSerializer {
    pub fn new() -> (r: KdlSerializer)
        ensures
            r.indent == 0,
            r.out@ == Seq::<char>::empty(),
    {
        KdlSerializer { indent: 0, out: String::new() }
    }

    /// The accumulated text.
    pub fn into_string(self) -> (r: String)
        ensures
            r@ == self.out@,
    {
        self.out
    }

    fn indent(&mut self)
        ensures
            final(self).out@ == old(self).out@,
            final(self).indent == if old(self).indent < usize::MAX {
                old(self).indent + 1
            } else {
                old(self).indent as int
            },
    {
        if self.indent < usize::MAX {
            self.indent = self.indent + 1;
        }
    }

    fn dedent(&mut self)
        ensures
            final(self).out@ == old(self).out@,
            final(self).indent == if old(self).indent > 0 {
                old(self).indent - 1
            } else {
                0
            },
    {
        if self.indent > 0 {
            self.indent = self.indent - 1;
        }
    }

    fn write_indent(&mut self)
        ensures
            final(self).indent == old(self).indent,
            final(self).out@ == old(self).out@ + spec_indent_text(old(self).indent as nat),
    {
        let levels = self.indent;
        let mut i: usize = 0;
        proof {
            assert(self.out@ =~= old(self).out@ + spec_indent_text(0));
        }
        while i < levels
            invariant
                i <= levels,
                self.indent == old(self).indent,
                levels == old(self).indent,
                self.out@ == old(self).out@ + spec_indent_text(i as nat),
            decreases levels - i,
        {
            push_char(&mut self.out, ' ');
            push_char(&mut self.out, ' ');
            push_char(&mut self.out, ' ');
            push_char(&mut self.out, ' ');
            proof {
                assert(self.out@ =~= old(self).out@ + spec_indent_text((i + 1) as nat));
            }
            i += 1;
        }
    }

    /// Opens a `name { ... }` block on a fresh line.
    pub fn children_block(self, node_name: &str) -> (r: ChildrenBlock)
        ensures
            r.inner.indent == self.indent,
            r.inner.out@ == self.out@ + seq!['\n'] + spec_indent_text(self.indent as nat)
                + node_name@ + seq![' ', '{'],
    {
        let mut inner = self;
        let ghost start = inner.out@;
        let ghost ind = inner.indent;
        push_char(&mut inner.out, '\n');
        inner.write_indent();
        inner.out.append(node_name);
        push_char(&mut inner.out, ' ');
        push_char(&mut inner.out, '{');
        proof {
            assert(inner.out@ =~= start + seq!['\n'] + spec_indent_text(ind as nat) + node_name@
                + seq![' ', '{']);
        }
        ChildrenBlock { inner }
    }

    /// Opens an inline node on a fresh line.
    pub fn inline_node(self, node_name: &str) -> (r: InlineNode)
        ensures
            r.inner.indent == self.indent,
            r.inner.out@ == self.out@ + seq!['\n'] + spec_indent_text(self.indent as nat)
                + node_name@,
    {
        let mut inner = self;
        let ghost start = inner.out@;
        let ghost ind = inner.indent;
        push_char(&mut inner.out, '\n');
        inner.write_indent();
        inner.out.append(node_name);
        proof {
            assert(inner.out@ =~= start + seq!['\n'] + spec_indent_text(ind as nat) + node_name@);
        }
        InlineNode { inner }
    }
}

/// An open `name { ... }` block being filled with children.
#[derive(Debug)]
pub struct ChildrenBlock {
    pub inner: KdlSerializer,
}

/// One deeper indentation level; the counter saturates rather than
/// overflowing.
pub open spec fn sp_deeper(indent: nat) -> nat {
    if indent < usize::MAX as nat {
        indent + 1
    } else {
        indent
    }
}

/// The text a named child list emits, in order.
pub open spec fn sp_children_text<T: SerializeKdl>(
    items: Seq<(String, T)>,
    indent: nat,
) -> Seq<char>
    decreases items.len(),
{
    if items.len() == 0 {
        Seq::empty()
    } else {
        sp_children_text(items.drop_last(), indent) + items.last().1.node_text(
            items.last().0@,
            sp_deeper(indent),
        )
    }
}

impl ChildrenBlock {
    /// Writes one child node, one level deeper.
    pub fn child<T: SerializeKdl>(self, name: &str, child: &T) -> (r: ChildrenBlock)
        ensures
            r.inner.indent == self.inner.indent,
            r.inner.out@ == self.inner.out@ + child.node_text(
                name@,
                sp_deeper(self.inner.indent as nat),
            ),
    {
        let mut s = self.inner;
        let ghost ind0 = s.indent;
        if s.indent < usize::MAX {
            s.indent();
            let s2 = child.serialize(name, s);
            let mut s2 = s2;
            s2.dedent();
            proof {
                assert(s2.indent == ind0);
            }
            ChildrenBlock { inner: s2 }
        } else {
            let s2 = child.serialize(name, s);
            ChildrenBlock { inner: s2 }
        }
    }

    /// Writes a sequence of named children, in order.
    pub fn children<T: SerializeKdl>(self, items: &Vec<(String, T)>) -> (r: ChildrenBlock)
        ensures
            r.inner.indent == self.inner.indent,
            r.inner.out@ == self.inner.out@ + sp_children_text(
                items@,
                self.inner.indent as nat,
            ),
    {
        let n = items.len();
        let mut block = self;
        let ghost start = block.inner;
        let mut i: usize = 0;
        proof {
            assert(block.inner.out@ =~= start.out@ + sp_children_text(
                items@.take(0),
                start.indent as nat,
            )) by {
                assert(items@.take(0) =~= Seq::<(String, T)>::empty());
            }
        }
        while i < n
            invariant
                n == items@.len(),
                i <= n,
                block.inner.indent == start.indent,
                block.inner.out@ == start.out@ + sp_children_text(
                    items@.take(i as int),
                    start.indent as nat,
                ),
            decreases n - i,
        {
            let ghost acc0 = block.inner.out@;
            let pair = &items[i];
            block = block.child(pair.0.as_str(), &pair.1);
            proof {
                assert(items@.take(i + 1).drop_last() =~= items@.take(i as int));
                assert(items@.take(i + 1).last() == items@[i as int]);
                assert(block.inner.out@ =~= start.out@ + sp_children_text(
                    items@.take(i + 1),
                    start.indent as nat,
                ));
            }
            i += 1;
        }
        proof {
            assert(items@.take(n as int) =~= items@);
        }
        block
    }

    /// Closes the block with `}` on a fresh line.
    pub fn finish(self) -> (r: KdlSerializer)
        ensures
            r.indent == self.inner.indent,
            r.out@ == self.inner.out@ + seq!['\n'] + spec_indent_text(self.inner.indent as nat)
                + seq!['}'],
    {
        let mut s = self.inner;
        let ghost start = s.out@;
        let ghost ind = s.indent;
        push_char(&mut s.out, '\n');
        s.write_indent();
        push_char(&mut s.out, '}');
        proof {
            assert(s.out@ =~= start + seq!['\n'] + spec_indent_text(ind as nat) + seq!['}']);
        }
        s
    }
}

/// The text an optional property list emits, in order.
pub open spec fn sp_properties_text<T: SerializeKdlScalar>(
    props: Seq<(String, Option<T>)>,
) -> Seq<char>
    decreases props.len(),
{
    if props.len() == 0 {
        Seq::empty()
    } else {
        sp_properties_text(props.drop_last()) + (match props.last().1 {
            Some(v) => seq![' '] + props.last().0@ + seq!['='] + v.scalar_text(),
            None => Seq::empty(),
        })
    }
}

/// An open inline node taking arguments and properties.
#[derive(Debug)]
pub struct InlineNode {
    pub inner: KdlSerializer,
}

impl InlineNode {
    /// Writes one positional argument.
    pub fn arg<T: SerializeKdlScalar>(self, arg: &T) -> (r: InlineNode)
        ensures
            r.inner.indent == self.inner.indent,
            r.inner.out@ == self.inner.out@ + seq![' '] + arg.scalar_text(),
    {
        let mut s = self.inner;
        push_char(&mut s.out, ' ');
        let s = arg.serialize_scalar(s);
        InlineNode { inner: s }
    }

    /// Writes one `name=value` property when the value is present.
    pub fn property<T: SerializeKdlScalar>(self, prop: &str, value: &Option<T>) -> (r: InlineNode)
        ensures
            r.inner.indent == self.inner.indent,
            r.inner.out@ == (match value {
                Some(v) => self.inner.out@ + seq![' '] + prop@ + seq!['='] + v.scalar_text(),
                None => self.inner.out@,
            }),
    {
        match value {
            None => self,
            Some(v) => {
                let mut s = self.inner;
                push_char(&mut s.out, ' ');
                s.out.append(prop);
                push_char(&mut s.out, '=');
                let s = v.serialize_scalar(s);
                InlineNode { inner: s }
            },
        }
    }

    /// Writes a sequence of optional properties, in order.
    pub fn properties<T: SerializeKdlScalar>(self, props: &Vec<(String, Option<T>)>) -> (r:
        InlineNode)
        ensures
            r.inner.indent == self.inner.indent,
            r.inner.out@ == self.inner.out@ + sp_properties_text(props@),
    {
        let n = props.len();
        let mut node = self;
        let ghost start = node.inner;
        let mut i: usize = 0;
        proof {
            assert(node.inner.out@ =~= start.out@ + sp_properties_text(props@.take(0))) by {
                assert(props@.take(0) =~= Seq::<(String, Option<T>)>::empty());
            }
        }
        while i < n
            invariant
                n == props@.len(),
                i <= n,
                node.inner.indent == start.indent,
                node.inner.out@ == start.out@ + sp_properties_text(props@.take(i as int)),
            decreases n - i,
        {
            let pair = &props[i];
            node = node.property(pair.0.as_str(), &pair.1);
            proof {
                assert(props@.take(i + 1).drop_last() =~= props@.take(i as int));
                assert(props@.take(i + 1).last() == props@[i as int]);
                assert(node.inner.out@ =~= start.out@ + sp_properties_text(props@.take(i + 1)));
            }
            i += 1;
        }
        proof {
            assert(props@.take(n as int) =~= props@);
        }
        node
    }

    /// Ends the inline node. Indentation is balanced entirely by
    /// [`ChildrenBlock::child`], so ending an inline node leaves the
    /// level untouched and the counter can never underflow.
    pub fn finish(self) -> (r: KdlSerializer)
        ensures
            r == self.inner,
    {
        self.inner
    }
}

/// A value written as one whole node: the text it emits is a function
/// of the value, the node name and the indentation level.
pub trait SerializeKdl: Sized {
    spec fn node_text(&self, name: Seq<char>, indent: nat) -> Seq<char>;

    fn serialize(&self, node_name: &str, serializer: KdlSerializer) -> (r: KdlSerializer)
        ensures
            r.indent == serializer.indent,
            r.out@ == serializer.out@ + self.node_text(node_name@, serializer.indent as nat),
    ;
}

/// A value written as one scalar token.
pub trait SerializeKdlScalar: Sized {
    spec fn scalar_text(&self) -> Seq<char>;

    fn serialize_scalar(&self, serializer: KdlSerializer) -> (r: KdlSerializer)
        ensures
            r.indent == serializer.indent,
            r.out@ == serializer.out@ + self.scalar_text(),
    ;
}

impl SerializeKdlScalar for String {
    open spec fn scalar_text(&self) -> Seq<char> {
        spec_quoted(self@)
    }

    fn serialize_scalar(&self, serializer: KdlSerializer) -> (r: KdlSerializer) {
        let mut s = serializer;
        write_quoted(&mut s.out, self.as_str());
        s
    }
}

impl SerializeKdlScalar for u16 {
    open spec fn scalar_text(&self) -> Seq<char> {
        spec_decimal(*self as nat)
    }

    fn serialize_scalar(&self, serializer: KdlSerializer) -> (r: KdlSerializer) {
        let mut s = serializer;
        let d = decimal_string(*self as u128);
        s.out.append(d.as_str());
        s
    }
}

impl SerializeKdlScalar for BaseColorKind {
    open spec fn scalar_text(&self) -> Seq<char> {
        match self {
            BaseColorKind::Hex(h) => spec_quoted(spec_hex_string(*h)),
            BaseColorKind::PaletteReference(name) => spec_quoted(name@),
        }
    }

    fn serialize_scalar(&self, serializer: KdlSerializer) -> (r: KdlSerializer) {
        let mut s = serializer;
        match self {
            BaseColorKind::Hex(h) => {
                let text = h.hex_string();
                write_quoted(&mut s.out, text.as_str());
            },
            BaseColorKind::PaletteReference(name) => {
                write_quoted(&mut s.out, name.as_str());
            },
        }
        s
    }
}

impl SerializeKdl for String {
    open spec fn node_text(&self, name: Seq<char>, indent: nat) -> Seq<char> {
        seq!['\n'] + spec_indent_text(indent) + name + seq![' '] + spec_quoted(self@)
    }

    fn serialize(&self, node_name: &str, serializer: KdlSerializer) -> (r: KdlSerializer) {
        let ghost start = serializer.out@;
        let ghost ind = serializer.indent;
        let node = serializer.inline_node(node_name);
        let node = node.arg(self);
        let r = node.finish();
        proof {
            assert(r.out@ =~= start + self.node_text(node_name@, ind as nat));
        }
        r
    }
}

} // verus!
