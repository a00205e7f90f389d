//! Textual rendering of a toggle container: one line per declared toggle, in
//! declared order, each line holding the 0/1 marker and the display name.

use vstd::prelude::*;

verus! {

use crate::{EnumToggles, ToggleView};

/// One rendered line: the 0/1 marker, a space, the display name, a trailing
/// space and the line break.
pub open spec fn render_line(value: bool, name: Seq<char>) -> Seq<char> {
    seq![if value { '1' } else { '0' }, ' '] + name + seq![' ', '\n']
}

/// The rendering of whole toggle state: the lines of all ordinals, in
/// declared order.
pub open spec fn render_view(names: Seq<Seq<char>>, values: Seq<bool>) -> Seq<char>
    decreases names.len(),
{
    if names.len() == 0 {
        Seq::empty()
    } else {
        render_line(values[0], names[0]) + render_view(names.drop_first(), values.drop_first())
    }
}

/// The number of occurrences of `c` in `s`.
pub open spec fn count_char(s: Seq<char>, c: char) -> int
    decreases s.len(),
{
    if s.len() == 0 {
        0
    } else {
        (if s[0] == c {
            1int
        } else {
            0int
        }) + count_char(s.drop_first(), c)
    }
}

proof fn lemma_count_char_add(a: Seq<char>, b: Seq<char>, c: char)
    ensures
        count_char(a + b, c) == count_char(a, c) + count_char(b, c),
    decreases a.len(),
{
    if a.len() == 0 {
        assert(a + b =~= b);
    } else {
        assert((a + b).drop_first() =~= a.drop_first() + b);
        lemma_count_char_add(a.drop_first(), b, c);
    }
}

proof fn lemma_count_char_absent(s: Seq<char>, c: char)
    requires
        forall|i: int| 0 <= i < s.len() ==> s[i] != c,
    ensures
        count_char(s, c) == 0,
    decreases s.len(),
{
    if s.len() > 0 {
        assert(forall|i: int| 0 <= i < s.drop_first().len() ==> s.drop_first()[i] == s[i + 1]);
        lemma_count_char_absent(s.drop_first(), c);
    }
}

/// Law: the rendering holds exactly one line per declared toggle — its count
/// of line breaks equals the number of names — as long as no display name
/// itself holds a line break.
pub proof fn lemma_render_line_count(names: Seq<Seq<char>>, values: Seq<bool>)
    requires
        names.len() == values.len(),
        forall|i: int, j: int|
            0 <= i < names.len() && 0 <= j < names[i].len() ==> names[i][j] != '\n',
    ensures
        count_char(render_view(names, values), '\n') == names.len(),
    decreases names.len(),
{
    if names.len() > 0 {
        let line = render_line(values[0], names[0]);
        let head = seq![if values[0] { '1' } else { '0' }, ' '];
        let tail = seq![' ', '\n'];
        lemma_count_char_add(head + names[0], tail, '\n');
        lemma_count_char_add(head, names[0], '\n');
        lemma_count_char_absent(head, '\n');
        lemma_count_char_absent(names[0], '\n');
        assert(count_char(Seq::<char>::empty(), '\n') == 0);
        assert(count_char(seq!['\n'], '\n') == 1) by {
            assert(seq!['\n'].drop_first() =~= Seq::<char>::empty());
        }
        assert(count_char(tail, '\n') == 1) by {
            assert(tail.drop_first() =~= seq!['\n']);
        }
        assert(count_char(line, '\n') == 1);
        let rest_names = names.drop_first();
        let rest_values = values.drop_first();
        assert(forall|i: int, j: int|
            0 <= i < rest_names.len() && 0 <= j < rest_names[i].len() ==> rest_names[i][j]
                == names[i + 1][j]);
        lemma_render_line_count(rest_names, rest_values);
        lemma_count_char_add(line, render_view(rest_names, rest_values), '\n');
    }
}

impl EnumToggles {
    /// Render all toggles and their values: one line per declared toggle, in
    /// declared order, each line holding the 0/1 marker followed by the name.
    pub fn render(&self) -> (r: String)
        requires
            self.wf(),
        ensures
            r@ == render_view(self@.names, self@.values),
    {
        let ghost names = self@.names;
        let ghost values = self@.values;
        let mut out = String::new();
        let n = self.len();
        let mut i: usize = 0;
        proof {
            assert(names.skip(0) =~= names);
            assert(values.skip(0) =~= values);
            assert(out@ + render_view(names, values) =~= render_view(names, values));
        }
        while i < n
            invariant
                i <= n,
                self.wf(),
                n == self@.values.len(),
                names == self@.names,
                values == self@.values,
                render_view(names, values) == out@ + render_view(
                    names.skip(i as int),
                    values.skip(i as int),
                ),
            decreases n - i,
        {
            let ghost out_before = out@;
            let marker: &str = if self.get(i) {
                "1 "
            } else {
                "0 "
            };
            out.append(marker);
            out.append(self.names[i].as_str());
            out.append(" \n");
            proof {
                reveal_strlit("1 ");
                reveal_strlit("0 ");
                reveal_strlit(" \n");
                let line = render_line(values[i as int], names[i as int]);
                let rest_names = names.skip(i as int);
                let rest_values = values.skip(i as int);
                assert(rest_names.drop_first() =~= names.skip(i + 1));
                assert(rest_values.drop_first() =~= values.skip(i + 1));
                assert(render_view(rest_names, rest_values) == line + render_view(
                    names.skip(i + 1),
                    values.skip(i + 1),
                ));
                assert(out@ =~= out_before + line);
                assert(out_before + (line + render_view(names.skip(i + 1), values.skip(i + 1)))
                    =~= (out_before + line) + render_view(names.skip(i + 1), values.skip(i + 1)));
            }
            i = i + 1;
        }
        proof {
            assert(render_view(names.skip(n as int), values.skip(n as int)) =~= Seq::<char>::empty());
            assert(render_view(names, values) =~= out@);
        }
        out
    }
}

} // verus!
