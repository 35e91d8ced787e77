//! The mail folders handler: the three protocol operations, fixed to the
//! `Mailbox` record type.

use vstd::prelude::*;
use crate::db::{Mailbox, RecordType};
use crate::method::{
    GetRequestArgs, GetResponseArgs, GetUpdatesRequestArgs, GetUpdatesResponseArgs, MethodError,
    SetRequestArgs, SetResponseArgs,
};
use crate::record::{get_post, get_updates_handler_post, set_post, RecordHandler};
use crate::util::RequestContext;

verus! {

/// The protocol operations on mail folders.
pub trait MailboxHandler: RecordHandler<Mailbox> {
    /// Fetches mail folders.
    fn get_mailboxes(&self, args: &GetRequestArgs) -> (r: Result<GetResponseArgs, MethodError>)
        requires
            self.handler_inv(),
        ensures
            get_post(self.handler_db(), self.handler_user(), Mailbox::type_id(), args, r),
    ;

    /// Fetches the incremental changes to mail folders.
    fn get_mailbox_updates(&self, args: &GetUpdatesRequestArgs) -> (r: Result<
        (GetUpdatesResponseArgs, Option<GetResponseArgs>),
        MethodError,
    >)
        requires
            self.handler_inv(),
        ensures
            get_updates_handler_post(
                self.handler_db(),
                self.handler_user(),
                Mailbox::type_id(),
                args,
                r,
            ),
    ;

    /// Applies an atomic create/update/destroy batch of mail folders.
    fn set_mailboxes(&mut self, args: &SetRequestArgs) -> (r: Result<SetResponseArgs, MethodError>)
        requires
            old(self).handler_inv(),
        ensures
            final(self).handler_inv(),
            final(self).handler_user() == old(self).handler_user(),
            set_post(
                old(self).handler_db(),
                final(self).handler_db(),
                old(self).handler_user(),
                Mailbox::type_id(),
                Mailbox::default_doc_spec(),
                args,
                r,
            ),
    ;
}

impl MailboxHandler for RequestContext {
    fn get_mailboxes(&self, args: &GetRequestArgs) -> (r: Result<GetResponseArgs, MethodError>) {
        <Self as RecordHandler<Mailbox>>::get_records(self, args)
    }

    fn get_mailbox_updates(&self, args: &GetUpdatesRequestArgs) -> (r: Result<
        (GetUpdatesResponseArgs, Option<GetResponseArgs>),
        MethodError,
    >) {
        <Self as RecordHandler<Mailbox>>::get_record_updates(self, args)
    }

    fn set_mailboxes(&mut self, args: &SetRequestArgs) -> (r: Result<SetResponseArgs, MethodError>) {
        <Self as RecordHandler<Mailbox>>::set_records(self, args)
    }
}

} // verus!
