//! Text of puzzle definitions in Lua, as a developer copies it out of the
//! program.

use crate::naming::strings_view;
use vstd::prelude::*;
use vstd::utf8::encode_utf8;

verus! {

/// Length of a string in bytes, which is what the layout counts.
pub open spec fn byte_len(s: Seq<char>) -> nat {
    encode_utf8(s).len()
}

/// The largest length in bytes among the strings; zero when there is none.
pub open spec fn max_byte_len(strings: Seq<Seq<char>>) -> nat
    decreases strings.len(),
{
    if strings.len() == 0 {
        0
    } else {
        let before = max_byte_len(strings.drop_last());
        if byte_len(strings.last()) > before {
            byte_len(strings.last())
        } else {
            before
        }
    }
}

/// `n` spaces.
pub open spec fn spaces(n: nat) -> Seq<char> {
    Seq::new(n, |i: int| ' ')
}

/// `s` with spaces behind it up to a length of `width` bytes; `s` itself
/// when it is that long or longer.
pub open spec fn padded(s: Seq<char>, width: nat) -> Seq<char> {
    if byte_len(s) >= width {
        s
    } else {
        s + spaces((width - byte_len(s)) as nat)
    }
}

/// A space behind a string makes it one byte longer.
pub proof fn lemma_byte_len_with_space(s: Seq<char>)
    ensures
        byte_len(s.push(' ')) == byte_len(s) + 1,
    decreases s.len(),
{
    let longer = s.push(' ');
    if s.len() == 0 {
        assert(longer.drop_first() =~= Seq::<char>::empty());
        assert(encode_utf8(longer.drop_first()) =~= Seq::<u8>::empty());
        assert(' ' as u32 == 32);
        assert(vstd::utf8::has_width_1_encoding(32u32)) by (bit_vector);
        assert(encode_utf8(s) =~= Seq::<u8>::empty());
    } else {
        lemma_byte_len_with_space(s.drop_first());
        assert(longer.drop_first() =~= s.drop_first().push(' '));
        assert(longer[0] == s[0]);
    }
}

/// No string is longer than the longest.
pub proof fn lemma_max_byte_len(strings: Seq<Seq<char>>, i: int)
    requires
        0 <= i < strings.len(),
    ensures
        byte_len(strings[i]) <= max_byte_len(strings),
    decreases strings.len(),
{
    if i < strings.len() - 1 {
        lemma_max_byte_len(strings.drop_last(), i);
    }
}

/// Length of a string in bytes.
pub fn byte_length(s: &String) -> (r: usize)
    ensures
        r == byte_len(s@),
{
    s.as_str().as_bytes().len()
}

/// Pads the strings with spaces to the length, in bytes, of the longest.
pub fn pad_to_common_length(strings: Vec<String>) -> (r: Vec<String>)
    ensures
        r@.len() == strings@.len(),
        forall|i: int|
            0 <= i < r@.len() ==> (#[trigger] r@[i])@ == padded(
                strings@[i]@,
                max_byte_len(strings_view(strings@)),
            ),
{
    let ghost views = strings_view(strings@);
    let mut max_len: usize = 0;
    let mut i: usize = 0;
    assert(views.take(0) =~= Seq::empty());
    while i < strings.len()
        invariant
            i <= strings@.len(),
            views == strings_view(strings@),
            max_len == max_byte_len(views.take(i as int)),
        decreases strings@.len() - i,
    {
        assert(views.take(i as int + 1).drop_last() =~= views.take(i as int));
        let len = byte_length(&strings[i]);
        assert(views.take(i as int + 1).last() == strings@[i as int]@);
        if len > max_len {
            max_len = len;
        }
        i += 1;
    }
    assert(views.take(i as int) =~= views);
    let mut ret: Vec<String> = Vec::new();
    let mut i: usize = 0;
    while i < strings.len()
        invariant
            i <= strings@.len(),
            views == strings_view(strings@),
            max_len == max_byte_len(views),
            ret@.len() == i,
            forall|j: int| 0 <= j < i ==> (#[trigger] ret@[j])@ == padded(strings@[j]@, max_len as nat),
        decreases strings@.len() - i,
    {
        let mut s = strings[i].clone();
        let ghost unpadded = s@;
        let ghost count: nat = 0;
        proof {
            lemma_max_byte_len(views, i as int);
            assert(s@ =~= unpadded + spaces(0));
        }
        while byte_length(&s) < max_len
            invariant
                byte_len(unpadded) <= max_len,
                s@ == unpadded + spaces(count),
                byte_len(s@) == byte_len(unpadded) + count,
                byte_len(s@) <= max_len,
            decreases max_len - byte_len(s@),
        {
            proof {
                reveal_strlit(" ");
                lemma_byte_len_with_space(s@);
                assert(" "@ =~= seq![' ']);
                assert(s@ + " "@ =~= s@.push(' '));
                assert(s@.push(' ') =~= unpadded + spaces(count + 1));
                count = count + 1;
            }
            s.append(" ");
        }
        proof {
            if byte_len(unpadded) >= max_len {
                assert(count == 0);
                assert(s@ =~= unpadded);
            }
        }
        let ghost before = ret@;
        ret.push(s);
        assert(forall|j: int| 0 <= j < i ==> ret@[j] == before[j]);
        i += 1;
    }
    ret
}

/// What the text of a color system needs of one color: the texts that
/// stand for it, already quoted as Lua wants them.
pub struct LuaColor {
    /// The name of the color as a Lua string literal.
    pub name: String,
    /// The display name of the color as a quoted string.
    pub display: String,
    /// The name of the color as the key of a Lua table.
    pub key: String,
}

/// What the text of a color system needs of one color scheme.
pub struct LuaScheme {
    /// The name of the scheme as a quoted string.
    pub name: String,
    /// The default color of each color, by ID, as a quoted string.
    pub colors: Vec<String>,
}

/// The texts of the strings, one after the other.
pub open spec fn concat(parts: Seq<Seq<char>>) -> Seq<char>
    decreases parts.len(),
{
    if parts.len() == 0 {
        Seq::empty()
    } else {
        concat(parts.drop_last()) + parts.last()
    }
}

/// The part of a color's line that gives its name, before padding.
pub open spec fn name_part(color: LuaColor) -> Seq<char> {
    " name = "@ + color.name@ + ","@
}

/// The part of a color's line that gives its display name, before padding.
pub open spec fn display_part(color: LuaColor) -> Seq<char> {
    " display = "@ + color.display@ + ","@
}

/// The parts of all colors that give their names, before padding.
pub open spec fn name_parts(colors: Seq<LuaColor>) -> Seq<Seq<char>> {
    colors.map_values(|color: LuaColor| name_part(color))
}

/// The parts of all colors that give their display names, before padding.
pub open spec fn display_parts(colors: Seq<LuaColor>) -> Seq<Seq<char>> {
    colors.map_values(|color: LuaColor| display_part(color))
}

/// The line of color `i`. The names are padded to a common length. With a
/// single scheme the display names are padded too and the default color of
/// that scheme follows; else the display name closes the line, without
/// padding and without its comma.
pub open spec fn color_line(colors: Seq<LuaColor>, schemes: Seq<LuaScheme>, i: int) -> Seq<char> {
    "    {"@ + padded(name_part(colors[i]), max_byte_len(name_parts(colors))) + (if schemes.len()
        == 1 {
        padded(display_part(colors[i]), max_byte_len(display_parts(colors))) + " default = "@
            + schemes[0].colors@[i]@
    } else {
        " display = "@ + colors[i].display@
    }) + " },\n"@
}

/// The lines of all colors.
pub open spec fn color_lines(colors: Seq<LuaColor>, schemes: Seq<LuaScheme>) -> Seq<Seq<char>> {
    Seq::new(colors.len(), |i: int| color_line(colors, schemes, i))
}

/// The line that gives color `i` its default color in a scheme.
pub open spec fn scheme_line(colors: Seq<LuaColor>, scheme: LuaScheme, i: int) -> Seq<char> {
    "      "@ + colors[i].key@ + " = "@ + scheme.colors@[i]@ + ",\n"@
}

/// The text of one scheme: its name and a line for each color.
pub open spec fn scheme_text(colors: Seq<LuaColor>, scheme: LuaScheme) -> Seq<char> {
    "    {"@ + scheme.name@ + ", {\n"@ + concat(
        Seq::new(colors.len(), |i: int| scheme_line(colors, scheme, i)),
    ) + "    }},\n"@
}

/// The text that defines a color system in Lua: the identifier and the
/// name, a line for each color, and, unless there is exactly one scheme,
/// the schemes and the name of the default scheme.
pub open spec fn color_system_text(
    id: Seq<char>,
    name: Seq<char>,
    colors: Seq<LuaColor>,
    schemes: Seq<LuaScheme>,
    default_scheme: Seq<char>,
) -> Seq<char> {
    "color_systems:add("@ + id + ", {\n"@ + "  name = "@ + name + ",\n"@ + "\n  colors = {\n"@
        + concat(color_lines(colors, schemes)) + "  },\n"@ + (if schemes.len() == 1 {
        Seq::empty()
    } else {
        "\n  schemes = {\n"@ + concat(
            schemes.map_values(|scheme: LuaScheme| scheme_text(colors, scheme)),
        ) + "  },\n"@ + "  default = "@ + default_scheme + ",\n"@
    }) + "})\n"@
}

/// Appending to a list of texts appends to their concatenation.
pub proof fn lemma_concat_push(parts: Seq<Seq<char>>, part: Seq<char>)
    ensures
        concat(parts.push(part)) == concat(parts) + part,
{
    assert(parts.push(part).drop_last() =~= parts);
}

/// The text of one scheme.
fn scheme_to_lua_code(colors: &Vec<LuaColor>, scheme: &LuaScheme) -> (r: String)
    requires
        scheme.colors@.len() == colors@.len(),
    ensures
        r@ == scheme_text(colors@, *scheme),
{
    let ghost lines = Seq::new(colors@.len(), |i: int| scheme_line(colors@, *scheme, i));
    let mut s = String::from_str("    {");
    s.append(scheme.name.as_str());
    s.append(", {\n");
    let ghost head = s@;
    let mut i: usize = 0;
    assert(lines.take(0) =~= Seq::empty());
    while i < colors.len()
        invariant
            i <= colors@.len(),
            scheme.colors@.len() == colors@.len(),
            lines == Seq::new(colors@.len(), |i: int| scheme_line(colors@, *scheme, i)),
            s@ == head + concat(lines.take(i as int)),
        decreases colors@.len() - i,
    {
        proof {
            lemma_concat_push(lines.take(i as int), lines[i as int]);
            assert(lines.take(i as int + 1) =~= lines.take(i as int).push(lines[i as int]));
        }
        let ghost before = s@;
        s.append("      ");
        s.append(colors[i].key.as_str());
        s.append(" = ");
        s.append(scheme.colors[i].as_str());
        s.append(",\n");
        assert(s@ =~= before + scheme_line(colors@, *scheme, i as int));
        assert(s@ =~= head + (concat(lines.take(i as int)) + lines[i as int]));
        i += 1;
    }
    assert(lines.take(i as int) =~= lines);
    s.append("    }},\n");
    assert(s@ =~= scheme_text(colors@, *scheme));
    s
}

/// The text that defines a color system in Lua.
///
/// `id` and `name` are the identifier and the name of the color system,
/// quoted; `colors` holds the texts of each color and `schemes` those of
/// each scheme, which assigns a default color to every color;
/// `default_scheme` is the quoted name of the default scheme. With exactly
/// one scheme its default colors stand beside the colors, and no scheme is
/// listed.
pub fn color_system_to_lua_code(
    id: &String,
    name: &String,
    colors: &Vec<LuaColor>,
    schemes: &Vec<LuaScheme>,
    default_scheme: &String,
) -> (r: String)
    requires
        forall|k: int|
            0 <= k < schemes@.len() ==> (#[trigger] schemes@[k]).colors@.len() == colors@.len(),
    ensures
        r@ == color_system_text(id@, name@, colors@, schemes@, default_scheme@),
{
    let mut s = String::from_str("color_systems:add(");
    s.append(id.as_str());
    s.append(", {\n");
    s.append("  name = ");
    s.append(name.as_str());
    s.append(",\n");
    let has_default_colors = schemes.len() == 1;

    let mut name_pairs: Vec<String> = Vec::new();
    let mut display_pairs: Vec<String> = Vec::new();
    let mut i: usize = 0;
    while i < colors.len()
        invariant
            i <= colors@.len(),
            strings_view(name_pairs@) =~= name_parts(colors@).take(i as int),
            strings_view(display_pairs@) =~= display_parts(colors@).take(i as int),
        decreases colors@.len() - i,
    {
        let mut pair = String::from_str(" name = ");
        pair.append(colors[i].name.as_str());
        pair.append(",");
        let ghost before = name_pairs@;
        name_pairs.push(pair);
        assert(strings_view(name_pairs@) =~= strings_view(before).push(name_part(colors@[i as int])));
        let mut pair = String::from_str(" display = ");
        pair.append(colors[i].display.as_str());
        pair.append(",");
        let ghost before = display_pairs@;
        display_pairs.push(pair);
        assert(strings_view(display_pairs@) =~= strings_view(before).push(
            display_part(colors@[i as int]),
        ));
        i += 1;
    }
    assert(name_parts(colors@).take(i as int) =~= name_parts(colors@));
    assert(display_parts(colors@).take(i as int) =~= display_parts(colors@));
    assert(strings_view(name_pairs@) == name_parts(colors@));
    assert(strings_view(display_pairs@) == display_parts(colors@));
    let ghost raw_names = name_pairs@;
    let ghost raw_displays = display_pairs@;
    let name_pairs = pad_to_common_length(name_pairs);
    let display_pairs = pad_to_common_length(display_pairs);
    proof {
        assert forall|j: int| 0 <= j < colors@.len() implies (#[trigger] name_pairs@[j])@ == padded(
            name_part(colors@[j]),
            max_byte_len(name_parts(colors@)),
        ) by {
            assert(strings_view(raw_names)[j] == raw_names[j]@);
        }
        assert forall|j: int| 0 <= j < colors@.len() implies (#[trigger] display_pairs@[j])@
            == padded(display_part(colors@[j]), max_byte_len(display_parts(colors@))) by {
            assert(strings_view(raw_displays)[j] == raw_displays[j]@);
        }
    }

    s.append("\n  colors = {\n");
    let ghost head = s@;
    let ghost lines = color_lines(colors@, schemes@);
    let mut i: usize = 0;
    assert(lines.take(0) =~= Seq::empty());
    while i < colors.len()
        invariant
            i <= colors@.len(),
            has_default_colors == (schemes@.len() == 1),
            forall|k: int|
                0 <= k < schemes@.len() ==> (#[trigger] schemes@[k]).colors@.len()
                    == colors@.len(),
            name_pairs@.len() == colors@.len(),
            display_pairs@.len() == colors@.len(),
            forall|j: int|
                0 <= j < colors@.len() ==> (#[trigger] name_pairs@[j])@ == padded(
                    name_part(colors@[j]),
                    max_byte_len(name_parts(colors@)),
                ),
            forall|j: int|
                0 <= j < colors@.len() ==> (#[trigger] display_pairs@[j])@ == padded(
                    display_part(colors@[j]),
                    max_byte_len(display_parts(colors@)),
                ),
            lines == color_lines(colors@, schemes@),
            s@ == head + concat(lines.take(i as int)),
        decreases colors@.len() - i,
    {
        proof {
            lemma_concat_push(lines.take(i as int), lines[i as int]);
            assert(lines.take(i as int + 1) =~= lines.take(i as int).push(lines[i as int]));
        }
        let ghost before = s@;
        s.append("    {");
        s.append(name_pairs[i].as_str());
        if has_default_colors {
            s.append(display_pairs[i].as_str());
            s.append(" default = ");
            s.append(schemes[0].colors[i].as_str());
        } else {
            s.append(" display = ");
            s.append(colors[i].display.as_str());
        }
        s.append(" },\n");
        assert(s@ =~= before + color_line(colors@, schemes@, i as int));
        assert(s@ =~= head + (concat(lines.take(i as int)) + lines[i as int]));
        i += 1;
    }
    assert(lines.take(i as int) =~= lines);
    s.append("  },\n");

    if !has_default_colors {
        s.append("\n  schemes = {\n");
        let ghost head = s@;
        let ghost texts = schemes@.map_values(|scheme: LuaScheme| scheme_text(colors@, scheme));
        let mut k: usize = 0;
        assert(texts.take(0) =~= Seq::empty());
        while k < schemes.len()
            invariant
                k <= schemes@.len(),
                forall|j: int|
                    0 <= j < schemes@.len() ==> (#[trigger] schemes@[j]).colors@.len()
                        == colors@.len(),
                texts == schemes@.map_values(|scheme: LuaScheme| scheme_text(colors@, scheme)),
                s@ == head + concat(texts.take(k as int)),
            decreases schemes@.len() - k,
        {
            proof {
                lemma_concat_push(texts.take(k as int), texts[k as int]);
                assert(texts.take(k as int + 1) =~= texts.take(k as int).push(texts[k as int]));
            }
            let text = scheme_to_lua_code(colors, &schemes[k]);
            s.append(text.as_str());
            assert(s@ =~= head + (concat(texts.take(k as int)) + texts[k as int]));
            k += 1;
        }
        assert(texts.take(k as int) =~= texts);
        s.append("  },\n");
        s.append("  default = ");
        s.append(default_scheme.as_str());
        s.append(",\n");
    }
    s.append("})\n");
    assert(s@ =~= color_system_text(id@, name@, colors@, schemes@, default_scheme@));
    s
}

} // verus!
