//! The address book entries handler: the three protocol operations, fixed to the
//! `Contact` record type.

use vstd::prelude::*;
use crate::db::{Contact, RecordType};
use crate::method::{
    GetRequestArgs, GetResponseArgs, GetUpdatesRequestArgs, GetUpdatesResponseArgs, MethodError,
    SetRequestArgs, SetResponseArgs,
};
use crate::record::{get_post, get_updates_handler_post, set_post, RecordHandler};
use crate::util::RequestContext;

verus! {

/// The protocol operations on address book entries.
pub trait ContactHandler: RecordHandler<Contact> {
    /// Fetches address book entries.
    fn get_contacts(&self, args: &GetRequestArgs) -> (r: Result<GetResponseArgs, MethodError>)
        requires
            self.handler_inv(),
        ensures
            get_post(self.handler_db(), self.handler_user(), Contact::type_id(), args, r),
    ;

    /// Fetches the incremental changes to address book entries.
    fn get_contact_updates(&self, args: &GetUpdatesRequestArgs) -> (r: Result<
        (GetUpdatesResponseArgs, Option<GetResponseArgs>),
        MethodError,
    >)
        requires
            self.handler_inv(),
        ensures
            get_updates_handler_post(
                self.handler_db(),
                self.handler_user(),
                Contact::type_id(),
                args,
                r,
            ),
    ;

    /// Applies an atomic create/update/destroy batch of address book entries.
    fn set_contacts(&mut self, args: &SetRequestArgs) -> (r: Result<SetResponseArgs, MethodError>)
        requires
            old(self).handler_inv(),
        ensures
            final(self).handler_inv(),
            final(self).handler_user() == old(self).handler_user(),
            set_post(
                old(self).handler_db(),
                final(self).handler_db(),
                old(self).handler_user(),
                Contact::type_id(),
                Contact::default_doc_spec(),
                args,
                r,
            ),
    ;
}

impl ContactHandler for RequestContext {
    fn get_contacts(&self, args: &GetRequestArgs) -> (r: Result<GetResponseArgs, MethodError>) {
        <Self as RecordHandler<Contact>>::get_records(self, args)
    }

    fn get_contact_updates(&self, args: &GetUpdatesRequestArgs) -> (r: Result<
        (GetUpdatesResponseArgs, Option<GetResponseArgs>),
        MethodError,
    >) {
        <Self as RecordHandler<Contact>>::get_record_updates(self, args)
    }

    fn set_contacts(&mut self, args: &SetRequestArgs) -> (r: Result<SetResponseArgs, MethodError>) {
        <Self as RecordHandler<Contact>>::set_records(self, args)
    }
}

} // verus!
