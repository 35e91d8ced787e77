//! The calendars handler: the three protocol operations, fixed to the
//! `Calendar` record type.

use vstd::prelude::*;
use crate::db::{Calendar, RecordType};
use crate::method::{
    GetRequestArgs, GetResponseArgs, GetUpdatesRequestArgs, GetUpdatesResponseArgs, MethodError,
    SetRequestArgs, SetResponseArgs,
};
use crate::record::{get_post, get_updates_handler_post, set_post, RecordHandler};
use crate::util::RequestContext;

verus! {

/// The protocol operations on calendars.
pub trait CalendarHandler: RecordHandler<Calendar> {
    /// Fetches calendars.
    fn get_calendars(&self, args: &GetRequestArgs) -> (r: Result<GetResponseArgs, MethodError>)
        requires
            self.handler_inv(),
        ensures
            get_post(self.handler_db(), self.handler_user(), Calendar::type_id(), args, r),
    ;

    /// Fetches the incremental changes to calendars.
    fn get_calendar_updates(&self, args: &GetUpdatesRequestArgs) -> (r: Result<
        (GetUpdatesResponseArgs, Option<GetResponseArgs>),
        MethodError,
    >)
        requires
            self.handler_inv(),
        ensures
            get_updates_handler_post(
                self.handler_db(),
                self.handler_user(),
                Calendar::type_id(),
                args,
                r,
            ),
    ;

    /// Applies an atomic create/update/destroy batch of calendars.
    fn set_calendars(&mut self, args: &SetRequestArgs) -> (r: Result<SetResponseArgs, MethodError>)
        requires
            old(self).handler_inv(),
        ensures
            final(self).handler_inv(),
            final(self).handler_user() == old(self).handler_user(),
            set_post(
                old(self).handler_db(),
                final(self).handler_db(),
                old(self).handler_user(),
                Calendar::type_id(),
                Calendar::default_doc_spec(),
                args,
                r,
            ),
    ;
}

impl CalendarHandler for RequestContext {
    fn get_calendars(&self, args: &GetRequestArgs) -> (r: Result<GetResponseArgs, MethodError>) {
        <Self as RecordHandler<Calendar>>::get_records(self, args)
    }

    fn get_calendar_updates(&self, args: &GetUpdatesRequestArgs) -> (r: Result<
        (GetUpdatesResponseArgs, Option<GetResponseArgs>),
        MethodError,
    >) {
        <Self as RecordHandler<Calendar>>::get_record_updates(self, args)
    }

    fn set_calendars(&mut self, args: &SetRequestArgs) -> (r: Result<SetResponseArgs, MethodError>) {
        <Self as RecordHandler<Calendar>>::set_records(self, args)
    }
}

} // verus!
