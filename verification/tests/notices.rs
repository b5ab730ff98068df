use cr_tools::constants::license::{
    license_notice_body, license_notice_title, LICENSE_SHORT, LICENSE_URL,
};
use cr_tools::constants::meta::{ABOUT, AUTHOR, NAME, VERSION};

#[test]
fn title_names_the_application_and_its_version() {
    assert_eq!(license_notice_title(), "cr-tools v0.1.0 license notice");
    assert_eq!(
        license_notice_title(),
        format!("{name} v{version} license notice", name = NAME, version = VERSION)
    );
}

#[test]
fn body_names_the_application_three_times() {
    let body = license_notice_body();
    let expected = format!(
        "
{name} is free software: you can redistribute it and/or modify it under the terms
of the GNU Affero General Public License as published by the Free Software Foundation,
either version 3 of the License, or (at your option) any later version.

{name} is distributed in the hope that it will be useful, but WITHOUT ANY WARRANTY;
without even the implied warranty of MERCHANTABILITY or FITNESS FOR A PARTICULAR PURPOSE.
See the GNU Affero General Public License for more details.

You should have received a copy of the GNU Affero General Public License along with {name}.
If not, see https://www.gnu.org/licenses/.
\n",
        name = NAME
    );
    assert_eq!(body, expected);
    assert_eq!(body.matches("cr-tools").count(), 3);
    assert!(body.starts_with("\ncr-tools is free software"));
    assert!(body.ends_with("licenses/.\n\n"));
}

#[test]
fn constants_of_the_application() {
    assert_eq!(NAME, "cr-tools");
    assert_eq!(AUTHOR, "Bernd-L <git@bernd.pw>");
    assert_eq!(VERSION, "0.1.0");
    assert_eq!(ABOUT, "A simple calculator for Clash Royale");
    assert_eq!(
        LICENSE_SHORT,
        "Copyright 2021 Bernd-L; All rights reserved.\nLicensed under the AGPL 3.0"
    );
    assert_eq!(LICENSE_URL, "https://github.com/Bernd-L/cr-tools/blob/main/LICENSE.md");
}
