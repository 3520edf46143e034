//! Built-in license templates keyed by a short identifier, and a small
//! self-contained rendering configuration around them.

use vstd::prelude::*;

verus! {

use crate::template::opt_view;
use crate::text::append_vec;
use crate::text::chars_of;
use crate::text::join_with;
use crate::text::lemma_join_push;
use crate::text::replace_all;
use crate::text::replace_all_vec;
use crate::text::str_eq;
use crate::text::str_views;
use crate::text::string_of;

/// The built-in template for a license identifier: the GPL or AGPL header
/// for their identifiers, and the short all-rights-reserved notice for
/// everything else.
pub open spec fn spec_get_template(ident: Seq<char>) -> Seq<char> {
    if ident == "GPL-3.0"@ {
        "Copyright {year} {author} <{email}>. All rights reserved.\n\nThis program is free software: you can redistribute it and/or modify\nit under the terms of the GNU General Public License as published by\nthe Free Software Foundation, either version 3 of the License, or\n(at your option) any later version.\n\nThis program is distributed in the hope that it will be useful,\nbut WITHOUT ANY WARRANTY; without even the implied warranty of\nMERCHANTABILITY or FITNESS FOR A PARTICULAR PURPOSE.  See the\nGNU General Public License for more details.\n\nYou should have received a copy of the GNU General Public License\nalong with this program.  If not, see <http://www.gnu.org/licenses/>.\n\n"@
    } else if ident == "AGPL-3.0"@ {
        "Copyright {year} {author} <{email}>. All rights reserved.\n\nThis program is free software: you can redistribute it and/or modify\nit under the terms of the GNU General Public License as published by\nthe Free Software Foundation, either version 3 of the License, or\n(at your option) any later version.\n\nThis program is distributed in the hope that it will be useful,\nbut WITHOUT ANY WARRANTY; without even the implied warranty of\nMERCHANTABILITY or FITNESS FOR A PARTICULAR PURPOSE.  See the\nGNU General Public License for more details.\n\nYou should have received a copy of the GNU General Public License\nalong with this program.  If not, see <http://www.gnu.org/licenses/>.\n\n"@
    } else {
        "Copyright {year} {author} <{email}>. All rights reserved. Use of this source code is\ngoverned by the {ident} license that can be found in the LICENSE file.\n\n"@
    }
}

/// The built-in template for a license identifier.
pub fn get_template(ident: &str) -> (r: &'static str)
    ensures
        r@ == spec_get_template(ident@),
{
    if str_eq(ident, "GPL-3.0") {
        "Copyright {year} {author} <{email}>. All rights reserved.\n\nThis program is free software: you can redistribute it and/or modify\nit under the terms of the GNU General Public License as published by\nthe Free Software Foundation, either version 3 of the License, or\n(at your option) any later version.\n\nThis program is distributed in the hope that it will be useful,\nbut WITHOUT ANY WARRANTY; without even the implied warranty of\nMERCHANTABILITY or FITNESS FOR A PARTICULAR PURPOSE.  See the\nGNU General Public License for more details.\n\nYou should have received a copy of the GNU General Public License\nalong with this program.  If not, see <http://www.gnu.org/licenses/>.\n\n"
    } else if str_eq(ident, "AGPL-3.0") {
        "Copyright {year} {author} <{email}>. All rights reserved.\n\nThis program is free software: you can redistribute it and/or modify\nit under the terms of the GNU General Public License as published by\nthe Free Software Foundation, either version 3 of the License, or\n(at your option) any later version.\n\nThis program is distributed in the hope that it will be useful,\nbut WITHOUT ANY WARRANTY; without even the implied warranty of\nMERCHANTABILITY or FITNESS FOR A PARTICULAR PURPOSE.  See the\nGNU General Public License for more details.\n\nYou should have received a copy of the GNU General Public License\nalong with this program.  If not, see <http://www.gnu.org/licenses/>.\n\n"
    } else {
        "Copyright {year} {author} <{email}>. All rights reserved. Use of this source code is\ngoverned by the {ident} license that can be found in the LICENSE file.\n\n"
    }
}

/// The built-in template with year, author, email and identifier
/// substituted, in that order.
pub open spec fn spec_render_template(
    ident: Seq<char>,
    author: Seq<char>,
    email: Seq<char>,
    year: Seq<char>,
) -> Seq<char> {
    replace_all(
        replace_all(
            replace_all(replace_all(spec_get_template(ident), "{year}"@, year), "{author}"@, author),
            "{email}"@,
            email,
        ),
        "{ident}"@,
        ident,
    )
}

/// Render the built-in template for `ident` with the given author, email
/// and year.
pub fn render_template(ident: &str, author: &str, email: &str, year: &str) -> (r: String)
    ensures
        r@ == spec_render_template(ident@, author@, email@, year@),
{
    let base = chars_of(get_template(ident));
    proof {
        reveal_strlit("{year}");
        reveal_strlit("{author}");
        reveal_strlit("{email}");
        reveal_strlit("{ident}");
    }
    let year_tok = chars_of("{year}");
    let author_tok = chars_of("{author}");
    let email_tok = chars_of("{email}");
    let ident_tok = chars_of("{ident}");
    let s1 = replace_all_vec(&base, &year_tok, &chars_of(year));
    let s2 = replace_all_vec(&s1, &author_tok, &chars_of(author));
    let s3 = replace_all_vec(&s2, &email_tok, &chars_of(email));
    let s4 = replace_all_vec(&s3, &ident_tok, &chars_of(ident));
    string_of(&s4)
}

/// The older template set used by the self-contained configuration: the
/// author and email placeholders stand together and there are no trailing
/// blank lines.
pub open spec fn spec_old_template(ident: Seq<char>) -> Seq<char> {
    if ident == "GPL-3.0"@ || ident == "AGPL-3.0"@ {
        "Copyright {year} {author}{email}. All rights reserved.\n\nThis program is free software: you can redistribute it and/or modify\nit under the terms of the GNU General Public License as published by\nthe Free Software Foundation, either version 3 of the License, or\n(at your option) any later version.\n\nThis program is distributed in the hope that it will be useful,\nbut WITHOUT ANY WARRANTY; without even the implied warranty of\nMERCHANTABILITY or FITNESS FOR A PARTICULAR PURPOSE.  See the\nGNU General Public License for more details.\n\nYou should have received a copy of the GNU General Public License\nalong with this program.  If not, see <http://www.gnu.org/licenses/>."@
    } else {
        "Copyright {year} {author}{email}. All rights reserved. Use of this source code is\ngoverned by the {ident} license that can be found in the LICENSE file."@
    }
}

/// The older template for a license identifier.
fn old_template(ident: &str) -> (r: &'static str)
    ensures
        r@ == spec_old_template(ident@),
{
    if str_eq(ident, "GPL-3.0") || str_eq(ident, "AGPL-3.0") {
        "Copyright {year} {author}{email}. All rights reserved.\n\nThis program is free software: you can redistribute it and/or modify\nit under the terms of the GNU General Public License as published by\nthe Free Software Foundation, either version 3 of the License, or\n(at your option) any later version.\n\nThis program is distributed in the hope that it will be useful,\nbut WITHOUT ANY WARRANTY; without even the implied warranty of\nMERCHANTABILITY or FITNESS FOR A PARTICULAR PURPOSE.  See the\nGNU General Public License for more details.\n\nYou should have received a copy of the GNU General Public License\nalong with this program.  If not, see <http://www.gnu.org/licenses/>."
    } else {
        "Copyright {year} {author}{email}. All rights reserved. Use of this source code is\ngoverned by the {ident} license that can be found in the LICENSE file."
    }
}

/// What `Config::render` produces: the built-in template with year,
/// author and identifier substituted, and the email placeholder replaced
/// by ` <email>` or removed.
pub open spec fn spec_config_render(
    ident: Seq<char>,
    author: Seq<char>,
    year: Seq<char>,
    email: Option<Seq<char>>,
) -> Seq<char> {
    let base = replace_all(
        replace_all(replace_all(spec_old_template(ident), "{year}"@, year), "{author}"@, author),
        "{ident}"@,
        ident,
    );
    match email {
        Some(e) => replace_all(base, "{email}"@, " <"@ + e + ">"@),
        None => replace_all(base, "{email}"@, Seq::<char>::empty()),
    }
}

/// A self-contained license rendering configuration: identifier, author,
/// optional year and email, and optional exclude patterns.
pub struct Config {
    pub ident: String,
    pub author: String,
    pub year: Option<String>,
    pub email: Option<String>,
    pub excludes: Option<Vec<String>>,
}

impl Config {
    /// A configuration for the given identifier and author, defaulting the
    /// year to the current one.
    pub fn new(ident: &str, author: &str) -> (r: Config)
        ensures
            r.ident@ == ident@,
            r.author@ == author@,
            r.email is None,
            r.excludes is None,
            r.year is Some,
    {
        let iv = chars_of(ident);
        let av = chars_of(author);
        Config {
            ident: string_of(&iv),
            author: string_of(&av),
            email: None,
            year: Some(crate::template::current_year_string()),
            excludes: None,
        }
    }

    /// The same configuration with the given email.
    pub fn with_email(self, email: &str) -> (r: Config)
        ensures
            r.ident == self.ident,
            r.author == self.author,
            r.year == self.year,
            r.excludes == self.excludes,
            r.email matches Some(e) && e@ == email@,
    {
        let ev = chars_of(email);
        Config { email: Some(string_of(&ev)), ..self }
    }

    /// The same configuration with the given year.
    pub fn with_year(self, year: &str) -> (r: Config)
        ensures
            r.ident == self.ident,
            r.author == self.author,
            r.email == self.email,
            r.excludes == self.excludes,
            r.year matches Some(y) && y@ == year@,
    {
        let yv = chars_of(year);
        Config { year: Some(string_of(&yv)), ..self }
    }

    /// The same configuration with the given exclude patterns.
    pub fn with_excludes(self, patterns: Vec<String>) -> (r: Config)
        ensures
            r.ident == self.ident,
            r.author == self.author,
            r.email == self.email,
            r.year == self.year,
            r.excludes matches Some(p) && p == patterns,
    {
        Config { excludes: Some(patterns), ..self }
    }

    /// The configuration's template rendered with its year, author, email
    /// and identifier.
    pub fn render(&self) -> (r: String)
        ensures
            self.year matches Some(y) ==> r@ == spec_config_render(
                self.ident@,
                self.author@,
                y@,
                opt_view(self.email),
            ),
    {
        let year: String = match &self.year {
            Some(y) => y.clone(),
            None => crate::template::current_year_string(),
        };
        let base = chars_of(self.template().as_str());
        let ghost base_spec = spec_old_template(self.ident@);
        proof {
            reveal_strlit("{year}");
            reveal_strlit("{author}");
            reveal_strlit("{ident}");
            reveal_strlit("{email}");
        }
        let year_tok = chars_of("{year}");
        let author_tok = chars_of("{author}");
        let ident_tok = chars_of("{ident}");
        let email_tok = chars_of("{email}");
        let s1 = replace_all_vec(&base, &year_tok, &chars_of(year.as_str()));
        let s2 = replace_all_vec(&s1, &author_tok, &chars_of(self.author.as_str()));
        let s3 = replace_all_vec(&s2, &ident_tok, &chars_of(self.ident.as_str()));
        let rendered = match &self.email {
            Some(e) => {
                let mut ev: Vec<char> = Vec::new();
                ev.push(' ');
                ev.push('<');
                let inner = chars_of(e.as_str());
                append_vec(&mut ev, &inner);
                ev.push('>');
                proof {
                    assert(ev@ =~= " <"@ + e@ + ">"@) by {
                        reveal_strlit(" <");
                        reveal_strlit(">");
                    }
                }
                replace_all_vec(&s3, &email_tok, &ev)
            },
            None => {
                let empty: Vec<char> = Vec::new();
                replace_all_vec(&s3, &email_tok, &empty)
            },
        };
        string_of(&rendered)
    }

    /// The older built-in template for the configuration's identifier.
    pub fn template(&self) -> (r: String)
        ensures
            r@ == spec_old_template(self.ident@),
    {
        let t = chars_of(old_template(self.ident.as_str()));
        string_of(&t)
    }

    /// The exclude patterns as one alternation pattern, or the empty
    /// string when none are configured.
    pub fn exclude_pat(&self) -> (r: String)
        ensures
            match self.excludes {
                Some(pats) => r@ == "("@ + join_with(str_views(pats@), seq!['|']) + ")"@,
                None => r@ == Seq::<char>::empty(),
            },
    {
        match &self.excludes {
            Some(patterns) => {
                let mut v: Vec<char> = Vec::new();
                v.push('(');
                proof {
                    assert(v@ =~= "("@) by {
                        reveal_strlit("(");
                    }
                }
                let n = patterns.len();
                let mut i: usize = 0;
                while i < n
                    invariant
                        n == patterns@.len(),
                        0 <= i <= n,
                        v@ == "("@ + join_with(str_views(patterns@).take(i as int), seq!['|']),
                    decreases n - i,
                {
                    let ghost done = str_views(patterns@).take(i as int);
                    let ghost prev = v@;
                    if i > 0 {
                        v.push('|');
                    }
                    let pv = chars_of(patterns[i].as_str());
                    append_vec(&mut v, &pv);
                    proof {
                        lemma_join_push(done, seq!['|'], patterns@[i as int]@);
                        assert(done.push(patterns@[i as int]@) =~= str_views(patterns@).take(i
                            + 1));
                        if i == 0 {
                            assert(join_with(done, seq!['|']) =~= Seq::<char>::empty());
                            assert(v@ =~= prev + patterns@[i as int]@);
                            assert(("("@ + Seq::<char>::empty()) + patterns@[i as int]@ =~= "("@
                                + patterns@[i as int]@);
                        } else {
                            assert(v@ =~= prev + seq!['|'] + patterns@[i as int]@);
                            assert(("("@ + join_with(done, seq!['|'])) + seq!['|']
                                + patterns@[i as int]@ =~= "("@ + (join_with(done, seq!['|'])
                                + seq!['|'] + patterns@[i as int]@));
                        }
                    }
                    i += 1;
                }
                proof {
                    assert(str_views(patterns@).take(n as int) =~= str_views(patterns@));
                }
                v.push(')');
                proof {
                    assert(v@ =~= "("@ + join_with(str_views(patterns@), seq!['|']) + ")"@) by {
                        reveal_strlit(")");
                    }
                }
                string_of(&v)
            },
            None => String::new(),
        }
    }
}

} // verus!
