use vstd::prelude::*;

verus! {

#[verifier::external_type_specification]
#[verifier::external_body]
#[verifier::reject_recursive_types(T)]
pub struct ExSender<T>(std::sync::mpsc::Sender<T>);

#[verifier::external_type_specification]
#[verifier::external_body]
#[verifier::reject_recursive_types(T)]
pub struct ExReceiver<T>(std::sync::mpsc::Receiver<T>);

/// Relies on `std::sync::mpsc::channel`: the two ends of a new channel.
#[verifier::external_body]
pub(crate) fn open_channel<T>() -> (std::sync::mpsc::Sender<T>, std::sync::mpsc::Receiver<T>) {
    std::sync::mpsc::channel()
}

/// Relies on `Sender::send`, which fails once the receiving end is gone;
/// whether it is depends on the other side, so nothing is stated.
#[verifier::external_body]
pub(crate) fn send_on<T>(sender: &std::sync::mpsc::Sender<T>, value: T) -> bool {
    sender.send(value).is_ok()
}

/// Relies on `Receiver::recv`: waits for the next value, `None` once every
/// sender is gone.
#[verifier::external_body]
pub(crate) fn receive_on<T>(receiver: &std::sync::mpsc::Receiver<T>) -> Option<T> {
    receiver.recv().ok()
}

} // verus!
