//! The license notice of the application.

use super::meta;
use vstd::prelude::*;
use vstd::string::StringExecFns;

verus! {

/// The licence notice (AGPL 3) of the application
pub const LICENSE_SHORT: &'static str =
    "Copyright 2021 Bernd-L; All rights reserved.\nLicensed under the AGPL 3.0";

/// The licence URL (AGPL 3) of the application
pub const LICENSE_URL: &'static str = "https://github.com/Bernd-L/cr-tools/blob/main/LICENSE.md";

/// What follows the name and the version in the title of the license notice
pub const TITLE_ENDING: &'static str = " license notice";

/// The body of the license notice from the first mention of the name to the
/// second
pub const BODY_FREEDOM: &'static str = " is free software: you can redistribute it and/or modify it under the terms\nof the GNU Affero General Public License as published by the Free Software Foundation,\neither version 3 of the License, or (at your option) any later version.\n\n";

/// The body of the license notice from the second mention of the name to the
/// third
pub const BODY_WARRANTY: &'static str = " is distributed in the hope that it will be useful, but WITHOUT ANY WARRANTY;\nwithout even the implied warranty of MERCHANTABILITY or FITNESS FOR A PARTICULAR PURPOSE.\nSee the GNU Affero General Public License for more details.\n\nYou should have received a copy of the GNU Affero General Public License along with ";

/// The body of the license notice after the third mention of the name
pub const BODY_ENDING: &'static str = ".\nIf not, see https://www.gnu.org/licenses/.\n\n";

/// The title of the license notice: the name, ` v` and the version of the
/// application, and ` license notice`
pub open spec fn spec_license_notice_title() -> Seq<char> {
    meta::NAME@ + " v"@ + meta::VERSION@ + TITLE_ENDING@
}

/// The text body of the license notice: a line break, then the three
/// paragraphs of the notice, each of which names the application
pub open spec fn spec_license_notice_body() -> Seq<char> {
    "\n"@ + meta::NAME@ + BODY_FREEDOM@ + meta::NAME@ + BODY_WARRANTY@ + meta::NAME@ + BODY_ENDING@
}

/// The title of the license notice
pub fn license_notice_title() -> (title: String)
    ensures
        title@ == spec_license_notice_title(),
{
    let mut title = String::from_str(meta::NAME);
    title.append(" v");
    title.append(meta::VERSION);
    title.append(TITLE_ENDING);
    title
}

/// The text body of the license notice
pub fn license_notice_body() -> (body: String)
    ensures
        body@ == spec_license_notice_body(),
{
    let mut body = String::from_str("\n");
    body.append(meta::NAME);
    body.append(BODY_FREEDOM);
    body.append(meta::NAME);
    body.append(BODY_WARRANTY);
    body.append(meta::NAME);
    body.append(BODY_ENDING);
    body
}

} // verus!
