//! Template rendering: placeholder substitution and year fields.

use licensure::template::Authors;
use licensure::template::Context;
use licensure::template::CopyrightHolder;
use licensure::template::Template;

fn test_context(year: &str) -> Context {
    Context {
        ident: String::from("test"),
        authors: Authors::new(vec![CopyrightHolder {
            name: "Mathew Robinson".to_string(),
            email: Some("chasinglogic@gmail.com".to_string()),
        }]),
        end_year: Some(String::from(year)),
        start_year: None,
        unwrap_text: true,
    }
}

#[test]
fn test_substitution_at_end_of_line() {
    // The test context asks for unwrapping, so the single line break after
    // the year placeholder collapses to a space before substitution.
    let context = test_context("2020");
    let template = Template::new("License [year]\ntext", context);
    let expected = String::from("License 2020 text");
    assert_eq!(expected, template.render())
}

#[test]
fn render_unwraps_wrapped_template() {
    // Single line breaks collapse to spaces; blank-line paragraph breaks
    // survive.
    let context = Context {
        ident: String::from("test"),
        authors: Authors::new(vec![]),
        end_year: Some(String::from("2024")),
        start_year: None,
        unwrap_text: true,
    };
    let template = Template::new("License [year]\nwrapped text\n\nnew paragraph", context);
    assert_eq!("License 2024 wrapped text\n\nnew paragraph", template.render());
}

#[test]
fn render_keeps_wrapping_when_unwrap_is_off() {
    let context = Context {
        ident: String::from("test"),
        authors: Authors::new(vec![]),
        end_year: Some(String::from("2024")),
        start_year: None,
        unwrap_text: false,
    };
    let template = Template::new("License [year]\ntext", context);
    assert_eq!("License 2024\ntext", template.render());
}

#[test]
fn test_substitutions() {
    let context = Context {
        ident: String::from("test"),
        authors: Authors::new(vec![CopyrightHolder {
            name: "Mathew Robinson".to_string(),
            email: Some("chasinglogic@gmail.com".to_string()),
        }]),
        end_year: Some(String::from("2020")),
        start_year: None,
        unwrap_text: true,
    };
    let template = Template::new("Copyright (C) [year] [name of author] This program is free software: you can redistribute it and/or modify it under the terms of the GNU Affero General Public License as published by the Free Software Foundation, version 3. This program is distributed in the hope that it will be useful, but WITHOUT ANY WARRANTY; without even the implied warranty of MERCHANTABILITY or FITNESS FOR A PARTICULAR PURPOSE. See the GNU Affero General Public License for more details. You should have received a copy of the GNU Affero General Public License along with this program. If not, see <https://www.gnu.org/licenses/>", context);
    let expected = String::from("Copyright (C) 2020 Mathew Robinson <chasinglogic@gmail.com> This program is free software: you can redistribute it and/or modify it under the terms of the GNU Affero General Public License as published by the Free Software Foundation, version 3. This program is distributed in the hope that it will be useful, but WITHOUT ANY WARRANTY; without even the implied warranty of MERCHANTABILITY or FITNESS FOR A PARTICULAR PURPOSE. See the GNU Affero General Public License for more details. You should have received a copy of the GNU Affero General Public License along with this program. If not, see <https://www.gnu.org/licenses/>");
    assert_eq!(expected, template.render())
}

#[test]
fn test_substitutions_year_ranges() {
    let context = Context {
        ident: String::from("test"),
        authors: Authors::new(vec![CopyrightHolder {
            name: "Mathew Robinson".to_string(),
            email: Some("chasinglogic@gmail.com".to_string()),
        }]),
        end_year: Some(String::from("2024")),
        start_year: Some(String::from("2020")),
        unwrap_text: true,
    };
    let template = Template::new("Copyright (C) [year] [name of author] This program is free software: you can redistribute it and/or modify it under the terms of the GNU Affero General Public License as published by the Free Software Foundation, version 3. This program is distributed in the hope that it will be useful, but WITHOUT ANY WARRANTY; without even the implied warranty of MERCHANTABILITY or FITNESS FOR A PARTICULAR PURPOSE. See the GNU Affero General Public License for more details. You should have received a copy of the GNU Affero General Public License along with this program. If not, see <https://www.gnu.org/licenses/>", context);
    let expected = String::from("Copyright (C) 2020, 2024 Mathew Robinson <chasinglogic@gmail.com> This program is free software: you can redistribute it and/or modify it under the terms of the GNU Affero General Public License as published by the Free Software Foundation, version 3. This program is distributed in the hope that it will be useful, but WITHOUT ANY WARRANTY; without even the implied warranty of MERCHANTABILITY or FITNESS FOR A PARTICULAR PURPOSE. See the GNU Affero General Public License for more details. You should have received a copy of the GNU Affero General Public License along with this program. If not, see <https://www.gnu.org/licenses/>");
    assert_eq!(expected, template.render())
}

#[test]
fn year_range_renders_both_years() {
    let context = Context {
        ident: String::from("x"),
        authors: Authors::new(vec![]),
        end_year: Some(String::from("2024")),
        start_year: Some(String::from("2020")),
        unwrap_text: false,
    };
    assert_eq!("2020, 2024", context.get_year());
}

#[test]
fn equal_start_and_end_year_renders_one_year() {
    let context = Context {
        ident: String::from("x"),
        authors: Authors::new(vec![]),
        end_year: Some(String::from("2024")),
        start_year: Some(String::from("2024")),
        unwrap_text: false,
    };
    assert_eq!("2024", context.get_year());
}

#[test]
fn authors_join_with_comma_and_space() {
    let authors = Authors::new(vec![
        CopyrightHolder { name: "A".to_string(), email: Some("a@example.com".to_string()) },
        CopyrightHolder { name: "B".to_string(), email: None },
    ]);
    assert_eq!("A <a@example.com>, B", authors.joined());
}

#[test]
fn spdx_tokens_select_apache_style() {
    let context = Context {
        ident: String::from("Apache-2.0"),
        authors: Authors::new(vec![CopyrightHolder { name: "Owner".to_string(), email: None }]),
        end_year: Some(String::from("2024")),
        start_year: None,
        unwrap_text: false,
    };
    let template = Template::new(
        "Copyright [yyyy] [name of copyright owner] under [ident]",
        context,
    ).set_spdx_template(true);
    assert_eq!("Copyright 2024 Owner under Apache-2.0", template.render());
}

#[test]
fn spdx_tokens_select_angle_bracket_style() {
    let context = Context {
        ident: String::from("MIT"),
        authors: Authors::new(vec![CopyrightHolder { name: "Owner".to_string(), email: None }]),
        end_year: Some(String::from("2024")),
        start_year: None,
        unwrap_text: false,
    };
    let template = Template::new("Copyright <year> <copyright holders>", context)
        .set_spdx_template(true);
    assert_eq!("Copyright 2024 Owner", template.render());
}
