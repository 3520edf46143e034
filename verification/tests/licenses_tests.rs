//! The built-in license templates and the self-contained rendering
//! configuration.

use licensure::licenses::get_template;
use licensure::licenses::render_template;
use licensure::licenses::Config;

const SHORT_IDENT: &str =
    "Copyright {year} {author} <{email}>. All rights reserved. Use of this source code is
governed by the {ident} license that can be found in the LICENSE file.

";

const GPLV3: &str = "Copyright {year} {author} <{email}>. All rights reserved.

This program is free software: you can redistribute it and/or modify
it under the terms of the GNU General Public License as published by
the Free Software Foundation, either version 3 of the License, or
(at your option) any later version.

This program is distributed in the hope that it will be useful,
but WITHOUT ANY WARRANTY; without even the implied warranty of
MERCHANTABILITY or FITNESS FOR A PARTICULAR PURPOSE.  See the
GNU General Public License for more details.

You should have received a copy of the GNU General Public License
along with this program.  If not, see <http://www.gnu.org/licenses/>.

";

#[test]
fn licenses_test_returns_short_ident_by_default() {
    assert_eq!(SHORT_IDENT, get_template("NOTALICENSE"));
}

#[test]
fn licenses_test_returns_gplv3() {
    assert_eq!(GPLV3, get_template("GPL-3.0"));
}

#[test]
fn licenses_test_returns_agplv3() {
    assert_eq!(GPLV3, get_template("AGPL-3.0"));
}

#[test]
fn licenses_test_render_short_ident() {
    assert_eq!(
        "Copyright 2018 Mathew Robinson <chasinglogic@gmail.com>. All rights reserved. Use of this source code is
governed by the MIT license that can be found in the LICENSE file.

",
        render_template("MIT", "Mathew Robinson", "chasinglogic@gmail.com", "2018")
    );
}

#[test]
fn licenses_test_render_gplv3() {
    assert_eq!(
        "Copyright 2018 Mathew Robinson <chasinglogic@gmail.com>. All rights reserved.

This program is free software: you can redistribute it and/or modify
it under the terms of the GNU General Public License as published by
the Free Software Foundation, either version 3 of the License, or
(at your option) any later version.

This program is distributed in the hope that it will be useful,
but WITHOUT ANY WARRANTY; without even the implied warranty of
MERCHANTABILITY or FITNESS FOR A PARTICULAR PURPOSE.  See the
GNU General Public License for more details.

You should have received a copy of the GNU General Public License
along with this program.  If not, see <http://www.gnu.org/licenses/>.

",
        render_template("GPL-3.0", "Mathew Robinson", "chasinglogic@gmail.com", "2018")
    );
}

const OLD_SHORT_IDENT: &str =
    "Copyright {year} {author}{email}. All rights reserved. Use of this source code is
governed by the {ident} license that can be found in the LICENSE file.";

const OLD_GPLV3: &str = "Copyright {year} {author}{email}. All rights reserved.

This program is free software: you can redistribute it and/or modify
it under the terms of the GNU General Public License as published by
the Free Software Foundation, either version 3 of the License, or
(at your option) any later version.

This program is distributed in the hope that it will be useful,
but WITHOUT ANY WARRANTY; without even the implied warranty of
MERCHANTABILITY or FITNESS FOR A PARTICULAR PURPOSE.  See the
GNU General Public License for more details.

You should have received a copy of the GNU General Public License
along with this program.  If not, see <http://www.gnu.org/licenses/>.";

#[test]
fn mod_test_returns_short_ident_by_default() {
    assert_eq!(OLD_SHORT_IDENT, Config::new("NOTALICENSE", "Mathew Robinson").template());
}

#[test]
fn mod_test_returns_gplv3() {
    assert_eq!(OLD_GPLV3, Config::new("GPL-3.0", "Mathew Robinson").template());
}

#[test]
fn mod_test_returns_agplv3() {
    assert_eq!(OLD_GPLV3, Config::new("AGPL-3.0", "Mathew Robinson").template());
}

#[test]
fn mod_test_render_short_ident() {
    assert_eq!(
        "Copyright 2018 Mathew Robinson <chasinglogic@gmail.com>. All rights reserved. Use of this source code is
governed by the MIT license that can be found in the LICENSE file.",
        Config::new("MIT", "Mathew Robinson")
            .with_email("chasinglogic@gmail.com")
            .with_year("2018")
            .render()
    );
}

#[test]
fn mod_test_render_gplv3() {
    assert_eq!(
        "Copyright 2018 Mathew Robinson <chasinglogic@gmail.com>. All rights reserved.

This program is free software: you can redistribute it and/or modify
it under the terms of the GNU General Public License as published by
the Free Software Foundation, either version 3 of the License, or
(at your option) any later version.

This program is distributed in the hope that it will be useful,
but WITHOUT ANY WARRANTY; without even the implied warranty of
MERCHANTABILITY or FITNESS FOR A PARTICULAR PURPOSE.  See the
GNU General Public License for more details.

You should have received a copy of the GNU General Public License
along with this program.  If not, see <http://www.gnu.org/licenses/>.",
        Config::new("GPL-3.0", "Mathew Robinson")
            .with_email("chasinglogic@gmail.com")
            .with_year("2018")
            .render()
    );
}

#[test]
fn exclude_pat_joins_patterns_with_alternation() {
    let cfg = Config::new("MIT", "A").with_excludes(vec![
        "a.*".to_string(),
        "b.*".to_string(),
    ]);
    assert_eq!("(a.*|b.*)", cfg.exclude_pat());
    assert_eq!("", Config::new("MIT", "A").exclude_pat());
}

#[test]
fn render_without_email_drops_placeholder() {
    assert_eq!(
        "Copyright 2018 Mathew Robinson. All rights reserved. Use of this source code is
governed by the MIT license that can be found in the LICENSE file.",
        Config::new("MIT", "Mathew Robinson").with_year("2018").render()
    );
}
