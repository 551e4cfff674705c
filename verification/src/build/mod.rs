//! Region index preparation.

pub mod modrana;
pub mod region;

use vstd::prelude::*;

use crate::build::modrana::Countries;
use crate::region::files::BaseUrls;
use crate::text::{join, slash};

verus! {

/// Get the URLs for downloading a region's data.
pub fn base_urls(modrana: &Countries) -> (urls: BaseUrls)
    ensures
        urls.postal_country_base@ == slash(modrana.url.base@, modrana.url.postal_country@),
        urls.postal_global_base@ == slash(
            slash(modrana.url.base@, modrana.url.postal_global@),
            modrana.postal_global.postal_global.path@,
        ),
        urls.valhalla_base@ == slash(
            slash(modrana.url.base@, modrana.url.valhalla@),
            "valhalla/packages"@,
        ),
        urls.geocoder_base@ == slash(modrana.url.base@, modrana.url.geocoder_nlp@),
{
    let base = modrana.url.base.as_str();
    let postal_global = join(base, modrana.url.postal_global.as_str());
    let valhalla = join(base, modrana.url.valhalla.as_str());
    BaseUrls {
        postal_country_base: join(base, modrana.url.postal_country.as_str()),
        postal_global_base: join(
            postal_global.as_str(),
            modrana.postal_global.postal_global.path.as_str(),
        ),
        valhalla_base: join(valhalla.as_str(), "valhalla/packages"),
        geocoder_base: join(base, modrana.url.geocoder_nlp.as_str()),
    }
}

} // verus!
