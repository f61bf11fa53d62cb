//! MAC vendor (OUI) lookup in the IEEE registry that `mac_oui` embeds.
use vstd::prelude::*;
use crate::model::opt_view;
use crate::net::{is_colon_mac, mac_number};

verus! {

#[verifier::external_type_specification]
#[verifier::external_body]
pub struct ExOui(mac_oui::Oui);

/// The registry's contents: for each 48-bit address it covers, the name of the company that
/// registered the block containing it.
pub uninterp spec fn oui_vendors(db: mac_oui::Oui) -> Map<u64, Seq<char>>;

/// `Oui::default`: parses the embedded registry. Nothing is promised of whether the parse
/// succeeds.
#[verifier::external_body]
fn load_embedded() -> Option<mac_oui::Oui> {
    match mac_oui::Oui::default() {
        Ok(db) => Some(db),
        Err(_) => None,
    }
}

/// `Oui::lookup_by_mac`, keeping the entry's company name. For a colon-separated MAC the
/// result is the registry's vendor for that address (the block lookup by its 48-bit value);
/// what the crate's parser makes of other spellings is left unsaid.
#[verifier::external_body]
fn lookup_company(db: &mac_oui::Oui, mac: &str) -> (r: Option<String>)
    ensures
        is_colon_mac(mac@) ==> opt_view(r) == (if oui_vendors(*db).dom().contains(mac_number(mac@)) {
            Some(oui_vendors(*db)[mac_number(mac@)])
        } else {
            None
        }),
{
    match db.lookup_by_mac(mac) {
        Ok(Some(entry)) => Some(entry.company_name.clone()),
        Ok(None) => None,
        Err(_) => None,
    }
}

/// A loaded OUI database. Loading parses the embedded dataset once; reuse a single instance
/// across a scan.
pub struct VendorDb {
    pub db: mac_oui::Oui,
}

impl VendorDb {
    /// The registry's vendor for each covered address.
    pub open spec fn vendors(&self) -> Map<u64, Seq<char>> {
        oui_vendors(self.db)
    }

    /// The vendor database of a parsed registry, `None` when there was none.
    pub fn from_loaded(found: Option<mac_oui::Oui>) -> (r: Option<Self>)
        ensures
            match found {
                Some(db) => r matches Some(v) && v.db == db,
                None => r is None,
            },
    {
        match found {
            Some(db) => Some(VendorDb { db }),
            None => None,
        }
    }

    /// Load the embedded OUI database, or `None` if it cannot be parsed.
    pub fn load() -> Option<Self> {
        Self::from_loaded(load_embedded())
    }

    /// Resolve a canonical lowercase MAC to its vendor/company name, if the registry knows it.
    pub fn lookup(&self, mac: &str) -> (r: Option<String>)
        ensures
            is_colon_mac(mac@) ==> opt_view(r) == (if self.vendors().dom().contains(mac_number(mac@)) {
                Some(self.vendors()[mac_number(mac@)])
            } else {
                None
            }),
    {
        lookup_company(&self.db, mac)
    }
}

} // verus!
