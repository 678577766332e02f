use hyperpuzzle::lua_code::{color_system_to_lua_code, LuaColor, LuaScheme};

fn colors() -> Vec<LuaColor> {
    vec![
        LuaColor {
            name: "'R'".to_string(),
            display: "\"Red\"".to_string(),
            key: "R".to_string(),
        },
        LuaColor {
            name: "'Blue'".to_string(),
            display: "\"B\"".to_string(),
            key: "Blue".to_string(),
        },
    ]
}

fn scheme(name: &str, colors: &[&str]) -> LuaScheme {
    LuaScheme {
        name: format!("{:?}", name),
        colors: colors.iter().map(|c| format!("{:?}", c)).collect(),
    }
}

#[test]
fn a_single_scheme_stands_beside_the_colors() {
    let text = color_system_to_lua_code(
        &"'cube'".to_string(),
        &"\"Cube\"".to_string(),
        &colors(),
        &vec![scheme("Default", &["Red", "Blue"])],
        &"\"Default\"".to_string(),
    );
    let expected = "color_systems:add('cube', {\n\
                    \x20 name = \"Cube\",\n\
                    \n\
                    \x20 colors = {\n\
                    \x20   { name = 'R',    display = \"Red\", default = \"Red\" },\n\
                    \x20   { name = 'Blue', display = \"B\",   default = \"Blue\" },\n\
                    \x20 },\n\
                    })\n";
    assert_eq!(text, expected);
}

#[test]
fn several_schemes_are_listed_with_the_default() {
    let text = color_system_to_lua_code(
        &"'cube'".to_string(),
        &"\"Cube\"".to_string(),
        &colors(),
        &vec![
            scheme("Default", &["Red", "Blue"]),
            scheme("Other", &["#fff", "unknown"]),
        ],
        &"\"Other\"".to_string(),
    );
    let expected = "color_systems:add('cube', {\n\
                    \x20 name = \"Cube\",\n\
                    \n\
                    \x20 colors = {\n\
                    \x20   { name = 'R',    display = \"Red\" },\n\
                    \x20   { name = 'Blue', display = \"B\" },\n\
                    \x20 },\n\
                    \n\
                    \x20 schemes = {\n\
                    \x20   {\"Default\", {\n\
                    \x20     R = \"Red\",\n\
                    \x20     Blue = \"Blue\",\n\
                    \x20   }},\n\
                    \x20   {\"Other\", {\n\
                    \x20     R = \"#fff\",\n\
                    \x20     Blue = \"unknown\",\n\
                    \x20   }},\n\
                    \x20 },\n\
                    \x20 default = \"Other\",\n\
                    })\n";
    assert_eq!(text, expected);
}

#[test]
fn no_scheme_is_no_single_scheme() {
    let text = color_system_to_lua_code(
        &"'x'".to_string(),
        &"\"X\"".to_string(),
        &vec![],
        &vec![],
        &"\"Default\"".to_string(),
    );
    let expected = "color_systems:add('x', {\n\
                    \x20 name = \"X\",\n\
                    \n\
                    \x20 colors = {\n\
                    \x20 },\n\
                    \n\
                    \x20 schemes = {\n\
                    \x20 },\n\
                    \x20 default = \"Default\",\n\
                    })\n";
    assert_eq!(text, expected);
}
